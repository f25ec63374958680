use lispy::ast::AST;
use lispy::parser::ParseError;
use lispy::parser::RecursiveDescentParser;
use lispy::tok::Position;
use lispy::tok::Token;
use lispy::tok::TokenAndSpan;
use lispy::tok::TokenizerError;
use lispy::tok::VecTokenizer;

fn mock_tokenizer(tokens_and_spans: Vec<TokenAndSpan>) -> VecTokenizer {
    VecTokenizer::new(tokens_and_spans.into_iter().map(Result::Ok).collect())
}

fn mock_tokenizer_with_zeros(tokens: Vec<Token>) -> VecTokenizer {
    mock_tokenizer(
        tokens
            .into_iter()
            .map(|token| TokenAndSpan {
                token,
                from: Position { line: 1, position: 0 },
                to: Position { line: 1, position: 1 },
            })
            .collect(),
    )
}

fn mock_tokenizer_with_errors(
    tokens_and_spans: Vec<TokenAndSpan>,
    error: TokenizerError,
) -> VecTokenizer {
    VecTokenizer::new(
        tokens_and_spans
            .into_iter()
            .map(Result::Ok)
            .chain(vec![Result::Err(error)])
            .collect(),
    )
}

#[test]
fn it_wraps_tokenizer_error_with_parse_error() {
    let tok = mock_tokenizer_with_errors(
        vec![],
        TokenizerError::ReadError {
            message: String::from("who dat"),
            from: Position { line: 1, position: 0 },
            to: Position { line: 1, position: 0 },
        },
    );
    let expr = RecursiveDescentParser::new(tok).next_expression();

    // expect the error is what we passed in wrapped in a ParseError
    assert!(expr.is_err());
    match expr.unwrap_err() {
        ParseError::TokenizerError(TokenizerError::ReadError { message, from, to }) => {
            assert_eq!(message, String::from("who dat"));
            assert_eq!(from, Position { line: 1, position: 0 });
            assert_eq!(to, Position { line: 1, position: 0 });
        }
        _ => panic!("Unexpected error here"),
    };
}

#[test]
fn it_handles_empty_token_stream() {
    let tok = mock_tokenizer(vec![]);

    let mut parser = RecursiveDescentParser::new(tok);
    assert_eq!(parser.next_expression().unwrap(), None);
}

#[test]
fn it_handles_unknown_token() {
    let tok = mock_tokenizer_with_zeros(vec![Token::Unknown('.')]);

    let mut parser = RecursiveDescentParser::new(tok);
    assert_eq!(
        parser.next_expression(),
        Err(ParseError::UnexpectedTokenError {
            expected: None,
            found: Some(Token::Unknown('.')),
            from: Position { line: 1, position: 0 },
            to: Position { line: 1, position: 1 },
        })
    );
}

#[test]
fn it_parses_no_args_expressions() {
    let tok = mock_tokenizer_with_zeros(vec![
        Token::OpenParen,
        Token::Identifier(String::from("something")),
        Token::CloseParen,
    ]);

    let mut parser = RecursiveDescentParser::new(tok);
    assert_eq!(
        *parser.next_expression().unwrap().unwrap(),
        AST::EvaluateExpr { callee: String::from("something"), args: vec![] }
    );

    // it throws an error if the first expression is not an identifier
    let tok = mock_tokenizer_with_zeros(vec![
        Token::OpenParen,
        Token::Number(String::from("1.0")),
        Token::CloseParen,
    ]);

    let mut parser = RecursiveDescentParser::new(tok);
    assert_eq!(
        parser.next_expression().unwrap_err(),
        ParseError::UnexpectedExpressionError {
            expected: Some(AST::VariableExpr(String::from("_"))),
            found: Some(AST::NumberExpr(String::from("1.0"))),
            position: Position { line: 1, position: 0 },
        }
    );
}

#[test]
fn it_parses_expressions_with_args() {
    let tok = mock_tokenizer_with_zeros(vec![
        Token::OpenParen,
        Token::Identifier(String::from("something")),
        Token::Number(String::from("1.0")),
        Token::Identifier(String::from("something_else")),
        Token::CloseParen,
    ]);

    let mut parser = RecursiveDescentParser::new(tok);
    assert_eq!(
        *parser.next_expression().unwrap().unwrap(),
        AST::EvaluateExpr {
            callee: String::from("something"),
            args: vec![
                AST::NumberExpr(String::from("1.0")),
                AST::VariableExpr(String::from("something_else")),
            ],
        }
    );
}

#[test]
fn it_parses_expressions_with_args_that_are_expressions() {
    let tok = mock_tokenizer_with_zeros(vec![
        Token::OpenParen,
        Token::Identifier(String::from("something")),
        Token::Number(String::from("1.0")),
        Token::OpenParen,
        Token::Identifier(String::from("something_else")),
        Token::Number(String::from("2.0")),
        Token::CloseParen,
        Token::CloseParen,
    ]);

    let mut parser = RecursiveDescentParser::new(tok);
    assert_eq!(
        *parser.next_expression().unwrap().unwrap(),
        AST::EvaluateExpr {
            callee: String::from("something"),
            args: vec![
                AST::NumberExpr(String::from("1.0")),
                AST::EvaluateExpr {
                    callee: String::from("something_else"),
                    args: vec![AST::NumberExpr(String::from("2.0"))],
                },
            ],
        }
    );
}

#[test]
fn it_returns_multiple_statements_as_separate_expressions() {
    let tok = mock_tokenizer_with_zeros(vec![
        Token::OpenParen,
        Token::Identifier(String::from("something")),
        Token::Number(String::from("1.0")),
        Token::CloseParen,
        Token::OpenParen,
        Token::Identifier(String::from("something_else")),
        Token::Number(String::from("2.0")),
        Token::CloseParen,
    ]);

    let mut parser = RecursiveDescentParser::new(tok);
    assert_eq!(
        *parser.next_expression().unwrap().unwrap(),
        AST::EvaluateExpr {
            callee: String::from("something"),
            args: vec![AST::NumberExpr(String::from("1.0"))],
        }
    );
    assert_eq!(
        *parser.next_expression().unwrap().unwrap(),
        AST::EvaluateExpr {
            callee: String::from("something_else"),
            args: vec![AST::NumberExpr(String::from("2.0"))],
        }
    );
}

#[test]
fn it_parses_def_statements_into_assignment_operation() {
    let tok = mock_tokenizer_with_zeros(vec![
        Token::OpenParen,
        Token::Def,
        Token::Identifier(String::from("whodat")),
        Token::Number(String::from("1.0")),
        Token::CloseParen,
    ]);

    let mut parser = RecursiveDescentParser::new(tok);
    assert_eq!(
        *parser.next_expression().unwrap().unwrap(),
        AST::EvaluateExpr {
            callee: String::from("__assign"),
            args: vec![
                AST::VariableExpr(String::from("whodat")),
                AST::NumberExpr(String::from("1.0")),
            ],
        }
    );

    // it throws an error if i use a non-identifier type as name
    let tok = mock_tokenizer_with_zeros(vec![
        Token::OpenParen,
        Token::Def,
        Token::Fn,
        Token::Number(String::from("1.0")),
        Token::CloseParen,
    ]);

    let mut parser = RecursiveDescentParser::new(tok);
    assert_eq!(
        parser.next_expression().unwrap_err(),
        ParseError::UnexpectedTokenError {
            expected: Some(Token::Identifier(String::from("_"))),
            found: Some(Token::Fn),
            from: Position { line: 1, position: 0 },
            to: Position { line: 1, position: 1 },
        }
    );

    // it throws an error if we provide too many args
    let tok = mock_tokenizer_with_zeros(vec![
        Token::OpenParen,
        Token::Def,
        Token::Identifier(String::from("too_many_args")),
        Token::Number(String::from("1.0")),
        Token::Number(String::from("2.0")),
        Token::CloseParen,
    ]);

    let mut parser = RecursiveDescentParser::new(tok);
    assert_eq!(
        parser.next_expression().unwrap_err(),
        ParseError::UnexpectedExpressionError {
            expected: None,
            found: Some(AST::NumberExpr(String::from("2.0"))),
            position: Position { line: 1, position: 0 },
        }
    );
}

#[test]
fn it_parses_a_function_definition_into_a_function() {
    // function without args
    let tok = mock_tokenizer_with_zeros(vec![
        Token::OpenParen,
        Token::Fn,
        Token::OpenParen,
        Token::CloseParen,
        Token::OpenParen,
        Token::Identifier(String::from("contents")),
        Token::CloseParen,
        Token::CloseParen,
    ]);

    let mut parser = RecursiveDescentParser::new(tok);
    assert_eq!(
        *parser.next_expression().unwrap().unwrap(),
        AST::FunctionExpr {
            parameters: vec![],
            statements: vec![AST::VariableExpr(String::from("contents"))],
        }
    );

    // function with args
    let tok = mock_tokenizer_with_zeros(vec![
        Token::OpenParen,
        Token::Fn,
        Token::OpenParen,
        Token::Identifier(String::from("arg1")),
        Token::Identifier(String::from("arg2")),
        Token::CloseParen,
        Token::OpenParen,
        Token::Identifier(String::from("contents")),
        Token::CloseParen,
        Token::CloseParen,
    ]);

    let mut parser = RecursiveDescentParser::new(tok);
    assert_eq!(
        *parser.next_expression().unwrap().unwrap(),
        AST::FunctionExpr {
            parameters: vec![String::from("arg1"), String::from("arg2")],
            statements: vec![AST::VariableExpr(String::from("contents"))],
        }
    );
}
