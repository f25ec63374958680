//! The pull-one-token-at-a-time tokenizer.
//!
//! `ParseHandler` walks an in-memory byte buffer and hands out one spanned
//! token per call to `get_token`, reporting the end of the input with an
//! explicit `Eof` token. Lines and columns are counted from zero. Between
//! tokens it skips any run of whitespace and line comments (`#` up to a
//! line break, the break included); having no lookahead, it consumes the
//! character that stops an identifier or a number along with it.
//!
//! The whole behaviour of `get_token` is pinned down by the specification
//! function [`lexer_next`], which maps the buffer and the number of consumed
//! bytes to the token (or error) returned and the new count.
use vstd::prelude::*;

use crate::scan::chars_of;
use crate::scan::col_at;
use crate::scan::is_alpha_byte;
use crate::scan::is_ident_byte;
use crate::scan::is_line_break;
use crate::scan::is_number_like_byte;
use crate::scan::is_blank_byte;
use crate::scan::blank_byte;
use crate::scan::skip_trivia;
use crate::scan::trivia_from;
use crate::scan::lemma_trivia_skip;
use crate::scan::lemma_skip_comment_body;
use crate::scan::lemma_pos_bounds;
use crate::scan::lemma_scan_ident_end;
use crate::scan::lemma_scan_number_end;
use crate::scan::line_at;
use crate::scan::number_error_message;
use crate::scan::number_error_text;
use crate::scan::scan_ident_end;
use crate::scan::scan_number_end;
use crate::scan::skip_comment_body;
use crate::scan::valid_number_text;
use crate::scan::alpha_byte;
use crate::scan::ident_byte;
use crate::scan::number_like_byte;
use crate::scan::bytes_to_string;
use crate::scan::check_number_text;

verus! {

/// One lexical token. Numeric literals keep their source text; the value
/// they denote is left to the consumer.
#[derive(Debug, PartialEq)]
pub enum Token {
    // standard symbols
    Eof,
    OpenParen,
    CloseParen,
    // reserved keywords
    Ns,
    Def,
    Defn,
    Fn,
    Quote,
    If,
    // more complex stuff
    Identifier(String),
    Number(String),
    Unknown(char),
}

/// The mathematical shape of a token: text as character sequences.
pub ghost enum SpecToken {
    Eof,
    OpenParen,
    CloseParen,
    Ns,
    Def,
    Defn,
    Fn,
    Quote,
    If,
    Identifier(Seq<char>),
    Number(Seq<char>),
    Unknown(char),
}

impl View for Token {
    type V = SpecToken;

    open spec fn view(&self) -> SpecToken {
        match self {
            Token::Eof => SpecToken::Eof,
            Token::OpenParen => SpecToken::OpenParen,
            Token::CloseParen => SpecToken::CloseParen,
            Token::Ns => SpecToken::Ns,
            Token::Def => SpecToken::Def,
            Token::Defn => SpecToken::Defn,
            Token::Fn => SpecToken::Fn,
            Token::Quote => SpecToken::Quote,
            Token::If => SpecToken::If,
            Token::Identifier(s) => SpecToken::Identifier(s@),
            Token::Number(s) => SpecToken::Number(s@),
            Token::Unknown(c) => SpecToken::Unknown(*c),
        }
    }
}

/// The reserved keyword a piece of identifier text stands for, if any.
pub open spec fn spec_keyword(t: Seq<u8>) -> Option<SpecToken> {
    if t == seq![110u8, 115u8] {
        Some(SpecToken::Ns)
    } else if t == seq![100u8, 101u8, 102u8] {
        Some(SpecToken::Def)
    } else if t == seq![100u8, 101u8, 102u8, 110u8] {
        Some(SpecToken::Defn)
    } else if t == seq![102u8, 110u8] {
        Some(SpecToken::Fn)
    } else if t == seq![113u8, 117u8, 111u8, 116u8, 101u8] {
        Some(SpecToken::Quote)
    } else if t == seq![105u8, 102u8] {
        Some(SpecToken::If)
    } else {
        None
    }
}

impl Token {
    /// Looks identifier text up in the reserved keyword table.
    fn from(text: &Vec<u8>) -> (r: Option<Token>)
        ensures
            match r {
                Some(t) => spec_keyword(text@) == Some(t@),
                None => spec_keyword(text@) is None,
            },
    {
        if text.len() == 2 && text[0] == 110u8 && text[1] == 115u8 {
            proof {
                assert(text@ =~= seq![110u8, 115u8]);
            }
            Some(Token::Ns)
        } else if text.len() == 3 && text[0] == 100u8 && text[1] == 101u8 && text[2] == 102u8 {
            proof {
                assert(text@ =~= seq![100u8, 101u8, 102u8]);
            }
            Some(Token::Def)
        } else if text.len() == 4 && text[0] == 100u8 && text[1] == 101u8 && text[2] == 102u8
            && text[3] == 110u8 {
            proof {
                assert(text@ =~= seq![100u8, 101u8, 102u8, 110u8]);
            }
            Some(Token::Defn)
        } else if text.len() == 2 && text[0] == 102u8 && text[1] == 110u8 {
            proof {
                assert(text@ =~= seq![102u8, 110u8]);
            }
            Some(Token::Fn)
        } else if text.len() == 5 && text[0] == 113u8 && text[1] == 117u8 && text[2] == 111u8
            && text[3] == 116u8 && text[4] == 101u8 {
            proof {
                assert(text@ =~= seq![113u8, 117u8, 111u8, 116u8, 101u8]);
            }
            Some(Token::Quote)
        } else if text.len() == 2 && text[0] == 105u8 && text[1] == 102u8 {
            proof {
                assert(text@ =~= seq![105u8, 102u8]);
            }
            Some(Token::If)
        } else {
            None
        }
    }
}

/// A zero-based source position: line and column of one character.
#[derive(Debug, PartialEq, Eq, Clone, Copy)]
pub struct Position {
    pub line: usize,
    pub position: usize,
}

/// A token together with the inclusive span of characters it came from.
#[derive(Debug, PartialEq)]
pub struct TokenAndSpan {
    pub token: Token,
    pub from: Position,
    pub to: Position,
}

pub ghost struct SpecTokenAndSpan {
    pub token: SpecToken,
    pub from: Position,
    pub to: Position,
}

impl View for TokenAndSpan {
    type V = SpecTokenAndSpan;

    open spec fn view(&self) -> SpecTokenAndSpan {
        SpecTokenAndSpan { token: self.token@, from: self.from, to: self.to }
    }
}

/// What can go wrong while producing a token: a failure of the underlying
/// input source, or a malformed numeric literal with its span.
#[derive(Debug)]
pub enum TokenizerError {
    IoError(String),
    ParseError { message: String, from: Position, to: Position },
}

pub ghost enum SpecTokenizerError {
    IoError(Seq<char>),
    ParseError { message: Seq<char>, from: Position, to: Position },
}

impl View for TokenizerError {
    type V = SpecTokenizerError;

    open spec fn view(&self) -> SpecTokenizerError {
        match self {
            TokenizerError::IoError(s) => SpecTokenizerError::IoError(s@),
            TokenizerError::ParseError { message, from, to } => SpecTokenizerError::ParseError {
                message: message@,
                from: *from,
                to: *to,
            },
        }
    }
}

impl TokenizerError {
    /// Wraps malformed numeric text and its span in the reported error.
    fn from(text: &Vec<u8>, from: Position, to: Position) -> (r: TokenizerError)
        ensures
            r@ == (SpecTokenizerError::ParseError {
                message: number_error_text(text@),
                from,
                to,
            }),
    {
        TokenizerError::ParseError { message: number_error_message(text), from, to }
    }
}

/// One character of input together with the position it was read at; `chr`
/// is `None` once the input is exhausted.
#[derive(Clone, Copy)]
struct CharAndPosition {
    chr: Option<u8>,
    line: usize,
    position: usize,
}

spec fn cp_alpha(cp: CharAndPosition) -> bool {
    match cp.chr {
        Some(b) => is_alpha_byte(b),
        None => false,
    }
}

spec fn cp_ident(cp: CharAndPosition) -> bool {
    match cp.chr {
        Some(b) => is_ident_byte(b),
        None => false,
    }
}

spec fn cp_number(cp: CharAndPosition) -> bool {
    match cp.chr {
        Some(b) => is_number_like_byte(b),
        None => false,
    }
}

/// The character read at the most recent step: when `consumed` bytes have
/// been read, the last of them (or the end of the input) with its position.
spec fn cp_at(buf: Seq<u8>, consumed: int, cp: CharAndPosition) -> bool {
    match cp.chr {
        Some(b) => 1 <= consumed <= buf.len() && b == buf[consumed - 1] && cp.line == line_at(
            buf,
            0,
            consumed - 1,
        ) && cp.position == col_at(buf, consumed - 1),
        None => consumed == buf.len() && cp.line == line_at(buf, 0, consumed) && cp.position
            == col_at(buf, consumed),
    }
}

/// The index of the character that `cp` stands for.
spec fn cp_idx(buf: Seq<u8>, consumed: int, cp: CharAndPosition) -> int {
    if cp.chr is Some {
        consumed - 1
    } else {
        buf.len() as int
    }
}

/// The position of the character at index `k`, lines counted from zero.
pub open spec fn lexer_pos(buf: Seq<u8>, k: int) -> Position {
    Position { line: line_at(buf, 0, k) as usize, position: col_at(buf, k) as usize }
}

/// One step of the tokenizer: the token or error produced when scanning
/// starts after `i` consumed bytes, and the number of consumed bytes
/// afterwards.
pub ghost struct LexStep {
    pub result: Result<SpecTokenAndSpan, SpecTokenizerError>,
    pub next: int,
}

pub open spec fn lexer_next(buf: Seq<u8>, i: int) -> LexStep {
    let j = skip_trivia(buf, i);
    if j >= buf.len() {
        LexStep {
            result: Ok(
                SpecTokenAndSpan {
                    token: SpecToken::Eof,
                    from: lexer_pos(buf, buf.len() as int),
                    to: lexer_pos(buf, buf.len() as int),
                },
            ),
            next: buf.len() as int,
        }
    } else {
        let b = buf[j];
        if b == 40 {
            LexStep {
                result: Ok(
                    SpecTokenAndSpan {
                        token: SpecToken::OpenParen,
                        from: lexer_pos(buf, j),
                        to: lexer_pos(buf, j),
                    },
                ),
                next: j + 1,
            }
        } else if b == 41 {
            LexStep {
                result: Ok(
                    SpecTokenAndSpan {
                        token: SpecToken::CloseParen,
                        from: lexer_pos(buf, j),
                        to: lexer_pos(buf, j),
                    },
                ),
                next: j + 1,
            }
        } else if is_alpha_byte(b) {
            let e = scan_ident_end(buf, j);
            let text = buf.subrange(j, e);
            let to = Position {
                line: line_at(buf, 0, e) as usize,
                position: (col_at(buf, e) - 1) as usize,
            };
            let token = match spec_keyword(text) {
                Some(t) => t,
                None => SpecToken::Identifier(chars_of(text)),
            };
            LexStep {
                result: Ok(SpecTokenAndSpan { token, from: lexer_pos(buf, j), to }),
                next: if e < buf.len() {
                    e + 1
                } else {
                    e
                },
            }
        } else if is_number_like_byte(b) {
            let e = scan_number_end(buf, j);
            let text = buf.subrange(j, e);
            let to = Position {
                line: line_at(buf, 0, e) as usize,
                position: (col_at(buf, e) - 1) as usize,
            };
            let next: int = if e < buf.len() {
                e + 1
            } else {
                e
            };
            if valid_number_text(text) {
                LexStep {
                    result: Ok(
                        SpecTokenAndSpan {
                            token: SpecToken::Number(chars_of(text)),
                            from: lexer_pos(buf, j),
                            to,
                        },
                    ),
                    next,
                }
            } else {
                LexStep {
                    result: Err(
                        SpecTokenizerError::ParseError {
                            message: number_error_text(text),
                            from: lexer_pos(buf, j),
                            to,
                        },
                    ),
                    next,
                }
            }
        } else {
            LexStep {
                result: Ok(
                    SpecTokenAndSpan {
                        token: SpecToken::Unknown(b as char),
                        from: lexer_pos(buf, j),
                        to: lexer_pos(buf, j),
                    },
                ),
                next: j + 1,
            }
        }
    }
}


/// Law: an input consisting only of whitespace and line comments produces
/// only the end marker, and leaves the input exhausted.
pub proof fn lemma_lexer_trivia_yields_eof(buf: Seq<u8>, i: int)
    requires
        0 <= i <= buf.len(),
        trivia_from(buf, i),
    ensures
        (match lexer_next(buf, i).result {
            Ok(t) => t.token is Eof,
            Err(e) => false,
        }),
        lexer_next(buf, i).next == buf.len(),
{
    lemma_trivia_skip(buf, i);
}

/// The view of a token result, shape and text only.
pub open spec fn token_result_view(r: Result<TokenAndSpan, TokenizerError>) -> Result<
    SpecTokenAndSpan,
    SpecTokenizerError,
> {
    match r {
        Ok(t) => Ok(t@),
        Err(e) => Err(e@),
    }
}

/// The tokenizer: a byte buffer and a cursor, with the position of the
/// cursor tracked as a line and column.
pub struct ParseHandler {
    inbuf: Vec<u8>,
    next_idx: usize,
    line: usize,
    position: usize,
}

impl ParseHandler {
    /// The input buffer.
    pub closed spec fn bytes(&self) -> Seq<u8> {
        self.inbuf@
    }

    /// How many bytes have been read so far.
    pub closed spec fn consumed(&self) -> int {
        self.next_idx as int
    }

    /// The cursor is inside the buffer and the tracked line and column match
    /// the bytes read so far.
    pub closed spec fn wf(&self) -> bool {
        self.next_idx <= self.inbuf@.len() && self.inbuf@.len() < usize::MAX && self.line
            == line_at(self.inbuf@, 0, self.next_idx as int) && self.position == col_at(
            self.inbuf@,
            self.next_idx as int,
        )
    }

    pub fn new(inbuf: Vec<u8>) -> (r: ParseHandler)
        requires
            inbuf@.len() < usize::MAX,
        ensures
            r.wf(),
            r.bytes() == inbuf@,
            r.consumed() == 0,
    {
        ParseHandler { inbuf, next_idx: 0, line: 0, position: 0 }
    }

    /// Reads one byte, advancing the tracked position; at the end of the
    /// input it reports `None` and stays put.
    fn get_next_char(&mut self) -> (r: CharAndPosition)
        requires
            old(self).wf(),
        ensures
            final (self).wf(),
            final (self).bytes() == old(self).bytes(),
            cp_at(old(self).bytes(), final (self).consumed(), r),
            cp_idx(old(self).bytes(), final (self).consumed(), r) == old(self).consumed(),
            old(self).consumed() < old(self).bytes().len() ==> final (self).consumed() == old(
                self,
            ).consumed() + 1,
            old(self).consumed() == old(self).bytes().len() ==> final (self).consumed() == old(
                self,
            ).consumed(),
    {
        proof {
            lemma_pos_bounds(self.inbuf@, 0, self.next_idx as int);
        }
        if self.next_idx < self.inbuf.len() {
            let b = self.inbuf[self.next_idx];
            let result = CharAndPosition { chr: Some(b), line: self.line, position: self.position };
            self.next_idx = self.next_idx + 1;
            self.position = self.position + 1;
            if b == 10 || b == 13 {
                self.line = self.line + 1;
                self.position = 0;
            }
            result
        } else {
            CharAndPosition { chr: None, line: self.line, position: self.position }
        }
    }

    /// Produces the next token, as [`lexer_next`] describes: whitespace and
    /// line comments are skipped, then a parenthesis, keyword,
    /// identifier, numeric literal, `Unknown` character or `Eof` marker is
    /// recognized, with its span; malformed numeric text is reported as an
    /// error carrying the text and its span.
    pub fn get_token(&mut self) -> (r: Result<TokenAndSpan, TokenizerError>)
        requires
            old(self).wf(),
        ensures
            final (self).wf(),
            final (self).bytes() == old(self).bytes(),
            token_result_view(r) == lexer_next(old(self).bytes(), old(self).consumed()).result,
            final (self).consumed() == lexer_next(old(self).bytes(), old(self).consumed()).next,
    {
        let ghost buf = self.bytes();
        let ghost i0 = self.consumed();
        let mut tok = self.get_next_char();
        // remove any whitespace and comments
        loop
            invariant
                self.wf(),
                self.bytes() == buf,
                0 <= i0 <= buf.len(),
                cp_at(buf, self.consumed(), tok),
                skip_trivia(buf, i0) == skip_trivia(buf, cp_idx(buf, self.consumed(), tok)),
            ensures
                self.wf(),
                self.bytes() == buf,
                cp_at(buf, self.consumed(), tok),
                cp_idx(buf, self.consumed(), tok) == skip_trivia(buf, i0),
            decreases buf.len() - cp_idx(buf, self.consumed(), tok),
        {
            if is_blank(&tok) {
                tok = self.get_next_char();
            } else if is_hash(&tok) {
                // a comment runs to the end of the line
                let ghost c = cp_idx(buf, self.consumed(), tok);
                let ghost stop = skip_comment_body(buf, c);
                proof {
                    lemma_skip_comment_body(buf, c + 1);
                }
                while continues_comment(&tok)
                    invariant
                        self.wf(),
                        self.bytes() == buf,
                        cp_at(buf, self.consumed(), tok),
                        skip_comment_body(buf, cp_idx(buf, self.consumed(), tok)) == stop,
                    decreases buf.len() - cp_idx(buf, self.consumed(), tok),
                {
                    tok = self.get_next_char();
                }
                proof {
                    assert(cp_idx(buf, self.consumed(), tok) == stop);
                }
            } else {
                proof {
                    assert(skip_trivia(buf, cp_idx(buf, self.consumed(), tok)) == cp_idx(
                        buf,
                        self.consumed(),
                        tok,
                    ));
                }
                break ;
            }
        }
        let ghost j = cp_idx(buf, self.consumed(), tok);
        proof {
            lemma_pos_bounds(buf, 0, j);
        }
        // find parens
        if matches!(tok.chr, Some(40u8)) {
            return Ok(
                TokenAndSpan {
                    token: Token::OpenParen,
                    from: Position { line: tok.line, position: tok.position },
                    to: Position { line: tok.line, position: tok.position },
                },
            );
        } else if matches!(tok.chr, Some(41u8)) {
            return Ok(
                TokenAndSpan {
                    token: Token::CloseParen,
                    from: Position { line: tok.line, position: tok.position },
                    to: Position { line: tok.line, position: tok.position },
                },
            );
        }
        // recognize any identifiers
        if is_alphabetic(&tok) {
            let mut ident: Vec<u8> = Vec::new();
            let from = Position { line: tok.line, position: tok.position };
            while is_identifier_like(&tok)
                invariant
                    self.wf(),
                    self.bytes() == buf,
                    0 <= j <= cp_idx(buf, self.consumed(), tok) <= buf.len(),
                    cp_at(buf, self.consumed(), tok),
                    scan_ident_end(buf, j) == scan_ident_end(
                        buf,
                        cp_idx(buf, self.consumed(), tok),
                    ),
                    ident@ == buf.subrange(j, cp_idx(buf, self.consumed(), tok)),
                decreases buf.len() - cp_idx(buf, self.consumed(), tok),
            {
                let ghost c0 = cp_idx(buf, self.consumed(), tok);
                ident.push(tok.chr.unwrap());
                tok = self.get_next_char();
                proof {
                    assert(buf.subrange(j, c0 + 1) =~= buf.subrange(j, c0).push(buf[c0]));
                }
            }
            let ghost e = cp_idx(buf, self.consumed(), tok);
            proof {
                assert(e == scan_ident_end(buf, j));
                lemma_scan_ident_end(buf, j);
                assert(is_ident_byte(buf[e - 1]));
                assert(col_at(buf, e) == col_at(buf, e - 1) + 1);
                lemma_pos_bounds(buf, 0, e);
            }
            let to = Position { line: tok.line, position: tok.position - 1 };
            if let Some(reserved_token) = Token::from(&ident) {
                return Ok(TokenAndSpan { token: reserved_token, from, to });
            }
            return Ok(TokenAndSpan { token: Token::Identifier(bytes_to_string(&ident)), from, to });
        }
        // recognizing any numeric things
        if is_number_like(&tok) {
            let mut numstr: Vec<u8> = Vec::new();
            let from = Position { line: tok.line, position: tok.position };
            while is_number_like(&tok)
                invariant
                    self.wf(),
                    self.bytes() == buf,
                    0 <= j <= cp_idx(buf, self.consumed(), tok) <= buf.len(),
                    cp_at(buf, self.consumed(), tok),
                    scan_number_end(buf, j) == scan_number_end(
                        buf,
                        cp_idx(buf, self.consumed(), tok),
                    ),
                    numstr@ == buf.subrange(j, cp_idx(buf, self.consumed(), tok)),
                decreases buf.len() - cp_idx(buf, self.consumed(), tok),
            {
                let ghost c0 = cp_idx(buf, self.consumed(), tok);
                numstr.push(tok.chr.unwrap());
                tok = self.get_next_char();
                proof {
                    assert(buf.subrange(j, c0 + 1) =~= buf.subrange(j, c0).push(buf[c0]));
                }
            }
            let ghost e = cp_idx(buf, self.consumed(), tok);
            proof {
                assert(e == scan_number_end(buf, j));
                lemma_scan_number_end(buf, j);
                assert(is_number_like_byte(buf[e - 1]));
                assert(col_at(buf, e) == col_at(buf, e - 1) + 1);
                lemma_pos_bounds(buf, 0, e);
            }
            let to = Position { line: tok.line, position: tok.position - 1 };
            if check_number_text(&numstr) {
                return Ok(
                    TokenAndSpan { token: Token::Number(bytes_to_string(&numstr)), from, to },
                );
            } else {
                return Err(TokenizerError::from(&numstr, from, to));
            }
        }
        // every other case is simply EOF and unknown char
        match tok.chr {
            None => Ok(
                TokenAndSpan {
                    token: Token::Eof,
                    from: Position { line: tok.line, position: tok.position },
                    to: Position { line: tok.line, position: tok.position },
                },
            ),
            Some(chr) => Ok(
                TokenAndSpan {
                    token: Token::Unknown(chr as char),
                    from: Position { line: tok.line, position: tok.position },
                    to: Position { line: tok.line, position: tok.position },
                },
            ),
        }
    }
}

fn is_blank(tok: &CharAndPosition) -> (r: bool)
    ensures
        r == match tok.chr {
            Some(b) => is_blank_byte(b),
            None => false,
        },
{
    match tok.chr {
        Some(chr) => blank_byte(chr),
        None => false,
    }
}

fn is_hash(tok: &CharAndPosition) -> (r: bool)
    ensures
        r == (tok.chr == Some(35u8)),
{
    match tok.chr {
        Some(chr) => chr == 35,
        None => false,
    }
}

fn continues_comment(tok: &CharAndPosition) -> (r: bool)
    ensures
        r == match tok.chr {
            Some(b) => !is_line_break(b),
            None => false,
        },
{
    match tok.chr {
        Some(chr) => !(chr == 10 || chr == 13),
        None => false,
    }
}

fn is_alphabetic(tok: &CharAndPosition) -> (r: bool)
    ensures
        r == cp_alpha(*tok),
{
    match tok.chr {
        Some(chr) => alpha_byte(chr),
        None => false,
    }
}

fn is_identifier_like(tok: &CharAndPosition) -> (r: bool)
    ensures
        r == cp_ident(*tok),
{
    match tok.chr {
        Some(chr) => ident_byte(chr),
        None => false,
    }
}

fn is_number_like(tok: &CharAndPosition) -> (r: bool)
    ensures
        r == cp_number(*tok),
{
    match tok.chr {
        Some(chr) => number_like_byte(chr),
        None => false,
    }
}

} // verus!
