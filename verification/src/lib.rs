//! A tokenizer and recursive-descent parser for a minimal S-expression
//! language: parenthesized applications, numeric and identifier literals, a
//! `def` assignment form and an `fn` anonymous-function form.
//!
//! The input is a byte buffer; [`tok::GreedyTokenizer`] turns it into a
//! sequence of spanned tokens on demand, and [`parser::RecursiveDescentParser`]
//! reduces one balanced-parenthesis group at a time to an [`ast::AST`]
//! expression. [`lexer::ParseHandler`] is an older pull-style tokenizer with
//! an explicit end-of-input token and slightly different bookkeeping; both
//! are kept, each fully specified. Every public operation carries a contract
//! that pins its result down to a specification function over the input
//! bytes or the token stream.

mod scan;
pub mod ast;
pub mod lexer;
pub mod tok;
pub mod parser;
