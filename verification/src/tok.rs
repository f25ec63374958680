//! The sequence-style tokenizer.
//!
//! `GreedyTokenizer` walks an in-memory byte buffer with one character of
//! lookahead and yields one spanned token per call to `next`, or `None` once
//! the input is exhausted. Lines are counted from one, columns from zero.
//! Between tokens it skips any run of whitespace and line comments (`#` up
//! to a line break); unlike the older pull-style tokenizer it loses no
//! character, because the lookahead keeps the character that ended a token.
//!
//! The whole behaviour is pinned down by two specification functions:
//! [`tok_next`] maps the buffer and the cursor to the next token (or error)
//! and the new cursor, and [`tok_stream`] gives the entire remaining token
//! sequence, which is what the [`Tokenizer`] trait exposes to the parser.
use vstd::prelude::*;
use vstd::string::StringExecFns;

use crate::scan::chars_of;
use crate::scan::col_at;
use crate::scan::is_alpha_byte;
use crate::scan::is_blank_byte;
use crate::scan::is_ident_byte;
use crate::scan::is_line_break;
use crate::scan::is_number_like_byte;
use crate::scan::lemma_pos_bounds;
use crate::scan::lemma_scan_ident_end;
use crate::scan::lemma_scan_number_end;
use crate::scan::lemma_skip_comment_body;
use crate::scan::lemma_skip_trivia;
use crate::scan::lemma_skip_trivia_solid;
use crate::scan::lemma_trivia_skip;
use crate::scan::skip_trivia;
use crate::scan::trivia_from;
use crate::scan::line_at;
use crate::scan::number_error_message;
use crate::scan::number_error_text;
use crate::scan::scan_ident_end;
use crate::scan::scan_number_end;
use crate::scan::skip_comment_body;
use crate::scan::valid_number_text;
use crate::scan::alpha_byte;
use crate::scan::ident_byte;
use crate::scan::number_like_byte;
use crate::scan::blank_byte;
use crate::scan::bytes_to_string;
use crate::scan::check_number_text;

verus! {

/// One lexical token. Numeric literals keep their source text; the value
/// they denote is left to the consumer.
#[derive(Debug, PartialEq, Clone)]
pub enum Token {
    // standard symbols
    OpenParen,
    CloseParen,
    // reserved keywords
    Def,
    Fn,
    // more complex stuff
    Identifier(String),
    Number(String),
    Unknown(char),
}

/// The mathematical shape of a token: text as character sequences.
pub ghost enum SpecToken {
    OpenParen,
    CloseParen,
    Def,
    Fn,
    Identifier(Seq<char>),
    Number(Seq<char>),
    Unknown(char),
}

impl View for Token {
    type V = SpecToken;

    open spec fn view(&self) -> SpecToken {
        match self {
            Token::OpenParen => SpecToken::OpenParen,
            Token::CloseParen => SpecToken::CloseParen,
            Token::Def => SpecToken::Def,
            Token::Fn => SpecToken::Fn,
            Token::Identifier(s) => SpecToken::Identifier(s@),
            Token::Number(s) => SpecToken::Number(s@),
            Token::Unknown(c) => SpecToken::Unknown(*c),
        }
    }
}

/// The reserved keyword a piece of identifier text stands for, if any.
pub open spec fn spec_keyword(t: Seq<u8>) -> Option<SpecToken> {
    if t == seq![100u8, 101u8, 102u8] {
        Some(SpecToken::Def)
    } else if t == seq![102u8, 110u8] {
        Some(SpecToken::Fn)
    } else {
        None
    }
}

/// The one-character operator identifier a character stands for, if any:
/// `+`, `-`, `*` or `/`.
pub open spec fn spec_reserved_char(b: u8) -> Option<SpecToken> {
    if b == 43 {
        Some(SpecToken::Identifier(seq!['+']))
    } else if b == 45 {
        Some(SpecToken::Identifier(seq!['-']))
    } else if b == 42 {
        Some(SpecToken::Identifier(seq!['*']))
    } else if b == 47 {
        Some(SpecToken::Identifier(seq!['/']))
    } else {
        None
    }
}

impl Token {
    /// Looks identifier text up in the reserved keyword table.
    fn from_str(text: &Vec<u8>) -> (r: Option<Token>)
        ensures
            match r {
                Some(t) => spec_keyword(text@) == Some(t@),
                None => spec_keyword(text@) is None,
            },
    {
        if text.len() == 3 && text[0] == 100u8 && text[1] == 101u8 && text[2] == 102u8 {
            proof {
                assert(text@ =~= seq![100u8, 101u8, 102u8]);
            }
            Some(Token::Def)
        } else if text.len() == 2 && text[0] == 102u8 && text[1] == 110u8 {
            proof {
                assert(text@ =~= seq![102u8, 110u8]);
            }
            Some(Token::Fn)
        } else {
            None
        }
    }

    /// Maps a reserved one-character operator to its identifier token.
    fn from_char(char_value: u8) -> (r: Option<Token>)
        ensures
            match r {
                Some(t) => spec_reserved_char(char_value) == Some(t@),
                None => spec_reserved_char(char_value) is None,
            },
    {
        if char_value == 43 {
            let s = String::from_str("+");
            proof {
                reveal_strlit("+");
                assert(s@ =~= seq!['+']);
            }
            Some(Token::Identifier(s))
        } else if char_value == 45 {
            let s = String::from_str("-");
            proof {
                reveal_strlit("-");
                assert(s@ =~= seq!['-']);
            }
            Some(Token::Identifier(s))
        } else if char_value == 42 {
            let s = String::from_str("*");
            proof {
                reveal_strlit("*");
                assert(s@ =~= seq!['*']);
            }
            Some(Token::Identifier(s))
        } else if char_value == 47 {
            let s = String::from_str("/");
            proof {
                reveal_strlit("/");
                assert(s@ =~= seq!['/']);
            }
            Some(Token::Identifier(s))
        } else {
            None
        }
    }

    /// An explicit copy, equal to the original in shape and text.
    pub fn duplicate(&self) -> (r: Token)
        ensures
            r@ == self@,
    {
        match self {
            Token::OpenParen => Token::OpenParen,
            Token::CloseParen => Token::CloseParen,
            Token::Def => Token::Def,
            Token::Fn => Token::Fn,
            Token::Identifier(s) => Token::Identifier(s.clone()),
            Token::Number(s) => Token::Number(s.clone()),
            Token::Unknown(c) => Token::Unknown(*c),
        }
    }
}

/// A source position: line (counted from one) and column (from zero).
#[derive(Debug, PartialEq, Eq, Clone, Copy)]
pub struct Position {
    pub line: usize,
    pub position: usize,
}

/// A token together with the inclusive span of characters it came from.
#[derive(Debug, PartialEq, Clone)]
pub struct TokenAndSpan {
    pub token: Token,
    pub from: Position,
    pub to: Position,
}

pub ghost struct SpecTokenAndSpan {
    pub token: SpecToken,
    pub from: Position,
    pub to: Position,
}

impl View for TokenAndSpan {
    type V = SpecTokenAndSpan;

    open spec fn view(&self) -> SpecTokenAndSpan {
        SpecTokenAndSpan { token: self.token@, from: self.from, to: self.to }
    }
}

impl TokenAndSpan {
    /// An explicit copy, equal to the original in shape, text and span.
    pub fn duplicate(&self) -> (r: TokenAndSpan)
        ensures
            r@ == self@,
    {
        TokenAndSpan { token: self.token.duplicate(), from: self.from, to: self.to }
    }
}

/// What can go wrong while producing a token: a failure of the underlying
/// input source, or a malformed numeric literal with its span.
#[derive(Debug, PartialEq)]
pub enum TokenizerError {
    IoError(String),
    ReadError { message: String, from: Position, to: Position },
}

pub ghost enum SpecTokenizerError {
    IoError(Seq<char>),
    ReadError { message: Seq<char>, from: Position, to: Position },
}

impl View for TokenizerError {
    type V = SpecTokenizerError;

    open spec fn view(&self) -> SpecTokenizerError {
        match self {
            TokenizerError::IoError(s) => SpecTokenizerError::IoError(s@),
            TokenizerError::ReadError { message, from, to } => SpecTokenizerError::ReadError {
                message: message@,
                from: *from,
                to: *to,
            },
        }
    }
}

impl TokenizerError {
    /// Wraps malformed numeric text and its span in the reported error.
    fn from(text: &Vec<u8>, from: Position, to: Position) -> (r: TokenizerError)
        ensures
            r@ == (SpecTokenizerError::ReadError {
                message: number_error_text(text@),
                from,
                to,
            }),
    {
        TokenizerError::ReadError { message: number_error_message(text), from, to }
    }
}

/// The view of a token result, shape and text only.
pub open spec fn token_result_view(r: Result<TokenAndSpan, TokenizerError>) -> Result<
    SpecTokenAndSpan,
    SpecTokenizerError,
> {
    match r {
        Ok(t) => Ok(t@),
        Err(e) => Err(e@),
    }
}

/// The views of a sequence of spanned tokens, in order.
pub open spec fn spans_view(v: Seq<TokenAndSpan>) -> Seq<SpecTokenAndSpan> {
    v.map_values(|t: TokenAndSpan| t@)
}

/// One character of input together with the position it was read at; `chr`
/// is `None` once the input is exhausted.
#[derive(Clone, Copy)]
struct CharAndPosition {
    chr: Option<u8>,
    line: usize,
    position: usize,
}

/// The character read at the most recent step: when `consumed` bytes have
/// been read, the last of them (or the end of the input) with its position.
spec fn cp_at(buf: Seq<u8>, consumed: int, cp: CharAndPosition) -> bool {
    match cp.chr {
        Some(b) => 1 <= consumed <= buf.len() && b == buf[consumed - 1] && cp.line == line_at(
            buf,
            1,
            consumed - 1,
        ) && cp.position == col_at(buf, consumed - 1),
        None => consumed == buf.len() && cp.line == line_at(buf, 1, consumed) && cp.position
            == col_at(buf, consumed),
    }
}

/// The index of the character that `cp` stands for.
spec fn cp_idx(buf: Seq<u8>, consumed: int, cp: CharAndPosition) -> int {
    if cp.chr is Some {
        consumed - 1
    } else {
        buf.len() as int
    }
}

/// The position of the character at index `k`, lines counted from one.
pub open spec fn tok_pos(buf: Seq<u8>, k: int) -> Position {
    Position { line: line_at(buf, 1, k) as usize, position: col_at(buf, k) as usize }
}

/// One step of the tokenizer: the token or error produced when the lookahead
/// stands at index `j`, and the index it stands at afterwards; `None` marks
/// the end of the input.
pub ghost struct TokStep {
    pub result: Option<Result<SpecTokenAndSpan, SpecTokenizerError>>,
    pub next: int,
}

pub open spec fn tok_next(buf: Seq<u8>, j: int) -> TokStep {
    let k = skip_trivia(buf, j);
    if k >= buf.len() {
        TokStep { result: None, next: buf.len() as int }
    } else {
        let b = buf[k];
        if b == 40 {
            TokStep {
                result: Some(
                    Ok(
                        SpecTokenAndSpan {
                            token: SpecToken::OpenParen,
                            from: tok_pos(buf, k),
                            to: tok_pos(buf, k),
                        },
                    ),
                ),
                next: k + 1,
            }
        } else if b == 41 {
            TokStep {
                result: Some(
                    Ok(
                        SpecTokenAndSpan {
                            token: SpecToken::CloseParen,
                            from: tok_pos(buf, k),
                            to: tok_pos(buf, k),
                        },
                    ),
                ),
                next: k + 1,
            }
        } else if is_alpha_byte(b) {
            let e = scan_ident_end(buf, k);
            let text = buf.subrange(k, e);
            let to = Position {
                line: line_at(buf, 1, e) as usize,
                position: (col_at(buf, e) - 1) as usize,
            };
            let token = match spec_keyword(text) {
                Some(t) => t,
                None => SpecToken::Identifier(chars_of(text)),
            };
            TokStep {
                result: Some(Ok(SpecTokenAndSpan { token, from: tok_pos(buf, k), to })),
                next: e,
            }
        } else if is_number_like_byte(b) {
            let e = scan_number_end(buf, k);
            let text = buf.subrange(k, e);
            let to = Position {
                line: line_at(buf, 1, e) as usize,
                position: (col_at(buf, e) - 1) as usize,
            };
            if valid_number_text(text) {
                TokStep {
                    result: Some(
                        Ok(
                            SpecTokenAndSpan {
                                token: SpecToken::Number(chars_of(text)),
                                from: tok_pos(buf, k),
                                to,
                            },
                        ),
                    ),
                    next: e,
                }
            } else {
                TokStep {
                    result: Some(
                        Err(
                            SpecTokenizerError::ReadError {
                                message: number_error_text(text),
                                from: tok_pos(buf, k),
                                to,
                            },
                        ),
                    ),
                    next: e,
                }
            }
        } else {
            let token = match spec_reserved_char(b) {
                Some(t) => t,
                None => SpecToken::Unknown(b as char),
            };
            TokStep {
                result: Some(
                    Ok(SpecTokenAndSpan { token, from: tok_pos(buf, k), to: tok_pos(buf, k) }),
                ),
                next: k + 1,
            }
        }
    }
}

/// After a produced token the cursor has moved forward, and never past the
/// end of the input.
pub proof fn lemma_tok_next_bounds(buf: Seq<u8>, j: int)
    requires
        0 <= j <= buf.len(),
    ensures
        tok_next(buf, j).result is Some ==> j < tok_next(buf, j).next <= buf.len(),
        tok_next(buf, j).result is None ==> tok_next(buf, j).next == buf.len(),
{
    lemma_skip_trivia(buf, j);
    let k = skip_trivia(buf, j);
    if k < buf.len() {
        lemma_scan_ident_end(buf, k);
        lemma_scan_number_end(buf, k);
        if is_alpha_byte(buf[k]) {
            lemma_scan_ident_end(buf, k + 1);
            assert(scan_ident_end(buf, k) == scan_ident_end(buf, k + 1));
        }
        if is_number_like_byte(buf[k]) {
            lemma_scan_number_end(buf, k + 1);
            assert(scan_number_end(buf, k) == scan_number_end(buf, k + 1));
        }
    }
}

/// The whole remaining token sequence from cursor `j`.
pub open spec fn tok_stream(buf: Seq<u8>, j: int) -> Seq<
    Result<SpecTokenAndSpan, SpecTokenizerError>,
>
    decreases buf.len() - j,
    via tok_stream_decreases
{
    let step = tok_next(buf, j);
    match step.result {
        None => Seq::empty(),
        Some(r) => seq![r] + tok_stream(buf, step.next),
    }
}

#[via_fn]
proof fn tok_stream_decreases(buf: Seq<u8>, j: int) {
    if j < 0 {
        lemma_tok_next_bounds(buf, 0);
        assert(skip_trivia(buf, j) == skip_trivia(buf, 0));
    } else if j <= buf.len() {
        lemma_tok_next_bounds(buf, j);
    } else {
        assert(skip_trivia(buf, j) == j);
    }
}

/// No input yields more tokens than it has characters.
pub proof fn lemma_tok_stream_len(buf: Seq<u8>, j: int)
    requires
        0 <= j <= buf.len(),
    ensures
        tok_stream(buf, j).len() <= buf.len() - j,
    decreases buf.len() - j,
{
    lemma_tok_next_bounds(buf, j);
    let step = tok_next(buf, j);
    if step.result is Some {
        lemma_tok_stream_len(buf, step.next);
    }
}


/// Law: an input consisting only of whitespace and line comments produces
/// no tokens at all.
pub proof fn lemma_trivia_input_yields_no_tokens(buf: Seq<u8>)
    requires
        trivia_from(buf, 0),
    ensures
        tok_stream(buf, 0) == Seq::<Result<SpecTokenAndSpan, SpecTokenizerError>>::empty(),
{
    lemma_trivia_skip(buf, 0);
}

/// Law: the report for malformed numeric text depends on the text alone.
/// Two scans that consume the same ill-formed numeric characters yield
/// read errors with the same message, wherever in their inputs the text
/// stands; the span only tracks the location. The result of every scan is
/// in any case a function of the input and cursor, so repeating a scan
/// repeats its outcome, message and span alike.
pub proof fn lemma_read_error_depends_on_text_alone(buf1: Seq<u8>, j1: int, buf2: Seq<u8>, j2: int)
    requires
        0 <= j1 <= buf1.len(),
        0 <= j2 <= buf2.len(),
        skip_trivia(buf1, j1) < buf1.len(),
        skip_trivia(buf2, j2) < buf2.len(),
        is_number_like_byte(buf1[skip_trivia(buf1, j1)]),
        is_number_like_byte(buf2[skip_trivia(buf2, j2)]),
        buf1.subrange(skip_trivia(buf1, j1), scan_number_end(buf1, skip_trivia(buf1, j1)))
            == buf2.subrange(skip_trivia(buf2, j2), scan_number_end(buf2, skip_trivia(buf2, j2))),
        !valid_number_text(
            buf1.subrange(skip_trivia(buf1, j1), scan_number_end(buf1, skip_trivia(buf1, j1))),
        ),
    ensures
        (match (tok_next(buf1, j1).result, tok_next(buf2, j2).result) {
            (
                Some(Err(SpecTokenizerError::ReadError { message: m1, from: f1, to: t1 })),
                Some(Err(SpecTokenizerError::ReadError { message: m2, from: f2, to: t2 })),
            ) => m1 == m2,
            _ => false,
        }),
{
}


/// Every identifier token of a stream carries at least one character.
pub open spec fn stream_identifiers_nonempty(
    s: Seq<Result<SpecTokenAndSpan, SpecTokenizerError>>,
) -> bool {
    forall|k: int|
        0 <= k < s.len() ==> (#[trigger] s[k] matches Ok(t) ==> (
        t.token matches SpecToken::Identifier(name) ==> name.len() > 0))
}

/// Law: the tokenizer never emits an empty identifier. An identifier token
/// comes either from a run of at least one alphanumeric character or from a
/// reserved one-character operator.
pub proof fn lemma_stream_identifiers_nonempty(buf: Seq<u8>, j: int)
    requires
        0 <= j <= buf.len(),
    ensures
        stream_identifiers_nonempty(tok_stream(buf, j)),
    decreases buf.len() - j,
{
    lemma_skip_trivia(buf, j);
    lemma_tok_next_bounds(buf, j);
    let step = tok_next(buf, j);
    let k = skip_trivia(buf, j);
    match step.result {
        None => {},
        Some(r) => {
            let st = tok_stream(buf, j);
            assert(st == seq![r] + tok_stream(buf, step.next));
            lemma_stream_identifiers_nonempty(buf, step.next);
            let b = buf[k];
            if b == 40 || b == 41 {
            } else if is_alpha_byte(b) {
                lemma_scan_ident_end(buf, k);
                lemma_scan_ident_end(buf, k + 1);
                assert(scan_ident_end(buf, k) >= k + 1);
            } else if is_number_like_byte(b) {
            } else {
                match spec_reserved_char(b) {
                    Some(t) => {
                        assert(t matches SpecToken::Identifier(name) ==> name.len() > 0);
                    },
                    None => {},
                }
            }
            assert forall|i: int|
                0 <= i < st.len() implies (#[trigger] st[i] matches Ok(t) ==> (
            t.token matches SpecToken::Identifier(name) ==> name.len() > 0)) by {
                if i > 0 {
                    assert(st[i] == tok_stream(buf, step.next)[i - 1]);
                } else {
                    assert(st[0] == r);
                }
            }
        },
    }
}

/// The source text one token stands for.
pub open spec fn token_text(t: SpecToken) -> Seq<char> {
    match t {
        SpecToken::OpenParen => seq!['('],
        SpecToken::CloseParen => seq![')'],
        SpecToken::Def => seq!['d', 'e', 'f'],
        SpecToken::Fn => seq!['f', 'n'],
        SpecToken::Identifier(text) => text,
        SpecToken::Number(text) => text,
        SpecToken::Unknown(c) => seq![c],
    }
}

/// The concatenated source text of all tokens of a stream.
pub open spec fn stream_text(s: Seq<Result<SpecTokenAndSpan, SpecTokenizerError>>) -> Seq<char>
    decreases s.len(),
{
    if s.len() == 0 {
        Seq::empty()
    } else {
        (match s[0] {
            Ok(t) => token_text(t.token),
            Err(e) => Seq::empty(),
        }) + stream_text(s.drop_first())
    }
}

/// Whether every item of a stream is a token.
pub open spec fn no_errors(s: Seq<Result<SpecTokenAndSpan, SpecTokenizerError>>) -> bool {
    forall|i: int| 0 <= i < s.len() ==> s[i] is Ok
}

/// The input text from `j` on, with whitespace and line comments removed.
pub open spec fn scrubbed(buf: Seq<u8>, j: int) -> Seq<char>
    decreases buf.len() - j,
    via scrubbed_decreases
{
    if j < 0 || j >= buf.len() {
        Seq::empty()
    } else if is_blank_byte(buf[j]) {
        scrubbed(buf, j + 1)
    } else if buf[j] == 35 {
        scrubbed(buf, skip_comment_body(buf, j + 1))
    } else {
        seq![buf[j] as char] + scrubbed(buf, j + 1)
    }
}

#[via_fn]
proof fn scrubbed_decreases(buf: Seq<u8>, j: int) {
    if 0 <= j < buf.len() && !is_blank_byte(buf[j]) && buf[j] == 35 {
        lemma_skip_comment_body(buf, j + 1);
    }
}

proof fn lemma_scrubbed_skip(buf: Seq<u8>, j: int)
    requires
        0 <= j <= buf.len(),
    ensures
        scrubbed(buf, j) == scrubbed(buf, skip_trivia(buf, j)),
    decreases buf.len() - j,
{
    if j < buf.len() {
        if is_blank_byte(buf[j]) {
            lemma_scrubbed_skip(buf, j + 1);
        } else if buf[j] == 35 {
            lemma_skip_comment_body(buf, j + 1);
            lemma_scrubbed_skip(buf, skip_comment_body(buf, j + 1));
        }
    }
}

/// Over a run of characters that are neither whitespace nor a comment
/// mark, scrubbing keeps the text as it is.
proof fn lemma_scrubbed_run(buf: Seq<u8>, k: int, e: int)
    requires
        0 <= k <= e <= buf.len(),
        forall|m: int| k <= m < e ==> !is_blank_byte(buf[m]) && buf[m] != 35,
    ensures
        scrubbed(buf, k) == chars_of(buf.subrange(k, e)) + scrubbed(buf, e),
    decreases e - k,
{
    if k == e {
        assert(chars_of(buf.subrange(k, e)) + scrubbed(buf, e) =~= scrubbed(buf, e));
    } else {
        lemma_scrubbed_run(buf, k + 1, e);
        assert(seq![buf[k] as char] + (chars_of(buf.subrange(k + 1, e)) + scrubbed(buf, e)) =~= chars_of(
            buf.subrange(k, e),
        ) + scrubbed(buf, e));
    }
}

/// Law: concatenating the source text of every token recovers the input
/// with its whitespace and line comments removed, whenever tokenization
/// succeeds everywhere.
pub proof fn lemma_round_trip(buf: Seq<u8>, j: int)
    requires
        0 <= j <= buf.len(),
        no_errors(tok_stream(buf, j)),
    ensures
        stream_text(tok_stream(buf, j)) == scrubbed(buf, j),
    decreases buf.len() - j,
{
    lemma_skip_trivia(buf, j);
    lemma_tok_next_bounds(buf, j);
    lemma_skip_trivia_solid(buf, j);
    lemma_scrubbed_skip(buf, j);
    let step = tok_next(buf, j);
    let k = skip_trivia(buf, j);
    match step.result {
        None => {
            assert(scrubbed(buf, buf.len() as int) =~= Seq::<char>::empty());
        },
        Some(r) => {
            let st = tok_stream(buf, j);
            assert(st == seq![r] + tok_stream(buf, step.next));
            assert(st[0] == r);
            assert(st[0] is Ok);
            let t = r->Ok_0;
            assert(tok_stream(buf, step.next) =~= st.drop_first());
            assert forall|i: int| 0 <= i < st.drop_first().len() implies st.drop_first()[i] is Ok by {
                assert(st.drop_first()[i] == st[i + 1]);
            }
            lemma_round_trip(buf, step.next);
            let b = buf[k];
            if b == 40 {
                assert(scrubbed(buf, k) == seq![b as char] + scrubbed(buf, k + 1));
                assert(token_text(t.token) =~= seq![b as char]);
            } else if b == 41 {
                assert(scrubbed(buf, k) == seq![b as char] + scrubbed(buf, k + 1));
                assert(token_text(t.token) =~= seq![b as char]);
            } else if is_alpha_byte(b) {
                let e = scan_ident_end(buf, k);
                lemma_scan_ident_end(buf, k);
                assert forall|m: int| k <= m < e implies !is_blank_byte(buf[m]) && buf[m] != 35 by {
                    assert(is_ident_byte(buf[m]));
                }
                lemma_scrubbed_run(buf, k, e);
                let text = buf.subrange(k, e);
                match spec_keyword(text) {
                    Some(kw) => {
                        assert(token_text(t.token) =~= chars_of(text));
                    },
                    None => {
                        assert(token_text(t.token) == chars_of(text));
                    },
                }
            } else if is_number_like_byte(b) {
                let e = scan_number_end(buf, k);
                lemma_scan_number_end(buf, k);
                assert forall|m: int| k <= m < e implies !is_blank_byte(buf[m]) && buf[m] != 35 by {
                    assert(is_number_like_byte(buf[m]));
                }
                lemma_scrubbed_run(buf, k, e);
                let text = buf.subrange(k, e);
                assert(valid_number_text(text));
                assert(token_text(t.token) == chars_of(text));
            } else {
                assert(scrubbed(buf, k) == seq![b as char] + scrubbed(buf, k + 1));
                match spec_reserved_char(b) {
                    Some(tk) => {
                        assert(token_text(t.token) =~= seq![b as char]);
                    },
                    None => {
                        assert(token_text(t.token) =~= seq![b as char]);
                    },
                }
            }
            assert(stream_text(st) == token_text(t.token) + stream_text(st.drop_first()));
        },
    }
}

/// A source of spanned tokens: one call to `next` yields one token or
/// tokenizer error, or `None` at the end of the stream. The ghost `stream`
/// is the whole remaining sequence, which `next` peels off the front.
pub trait Tokenizer: Sized {
    spec fn wf(&self) -> bool;

    spec fn stream(&self) -> Seq<Result<SpecTokenAndSpan, SpecTokenizerError>>;

    proof fn stream_len_bound(&self)
        requires
            self.wf(),
        ensures
            self.stream().len() <= usize::MAX,
    ;

    fn next(&mut self) -> (r: Option<Result<TokenAndSpan, TokenizerError>>)
        requires
            old(self).wf(),
        ensures
            final (self).wf(),
            old(self).stream().len() == 0 ==> r is None && final (self).stream() == old(
                self,
            ).stream(),
            old(self).stream().len() > 0 ==> (match r {
                Some(x) => token_result_view(x) == old(self).stream()[0],
                None => false,
            }) && final (self).stream() == old(self).stream().drop_first(),
    ;
}

/// The tokenizer: a byte buffer, a cursor, and one character of lookahead.
pub struct GreedyTokenizer {
    inbuf: Vec<u8>,
    next_idx: usize,
    line: usize,
    position: usize,
    current_char: CharAndPosition,
}

impl GreedyTokenizer {
    /// The input buffer.
    pub closed spec fn bytes(&self) -> Seq<u8> {
        self.inbuf@
    }

    /// How many bytes have been read so far, the lookahead included.
    pub closed spec fn consumed(&self) -> int {
        self.next_idx as int
    }

    /// The index of the character the lookahead stands at; the length of the
    /// buffer once the input is exhausted.
    pub closed spec fn cursor(&self) -> int {
        cp_idx(self.inbuf@, self.next_idx as int, self.current_char)
    }

    /// The cursor is inside the buffer, the tracked line and column match
    /// the bytes read so far, and the lookahead holds the byte before the
    /// read position.
    pub closed spec fn well_formed(&self) -> bool {
        self.next_idx <= self.inbuf@.len() && self.inbuf@.len() < usize::MAX && self.line
            == line_at(self.inbuf@, 1, self.next_idx as int) && self.position == col_at(
            self.inbuf@,
            self.next_idx as int,
        ) && cp_at(self.inbuf@, self.next_idx as int, self.current_char)
    }

    pub fn new(inbuf: Vec<u8>) -> (r: GreedyTokenizer)
        requires
            inbuf@.len() < usize::MAX,
        ensures
            r.well_formed(),
            r.bytes() == inbuf@,
            r.cursor() == 0,
    {
        let mut tok = GreedyTokenizer {
            inbuf,
            next_idx: 0,
            line: 1,
            position: 0,
            current_char: CharAndPosition { chr: None, line: 1, position: 0 },
        };
        // start it off
        tok.step_next_char();
        tok
    }

    /// Reads one byte into the lookahead, advancing the tracked position; at
    /// the end of the input the lookahead reports `None`.
    fn step_next_char(&mut self)
        requires
            old(self).well_formed() || (old(self).next_idx == 0 && old(self).line == 1 && old(
                self,
            ).position == 0 && old(self).inbuf@.len() < usize::MAX),
        ensures
            final (self).well_formed(),
            final (self).bytes() == old(self).bytes(),
            old(self).consumed() < old(self).bytes().len() ==> final (self).consumed() == old(
                self,
            ).consumed() + 1,
            old(self).consumed() >= old(self).bytes().len() ==> final (self).consumed() == old(
                self,
            ).consumed(),
            final (self).cursor() == old(self).consumed(),
    {
        proof {
            lemma_pos_bounds(self.inbuf@, 1, self.next_idx as int);
        }
        if self.next_idx < self.inbuf.len() {
            let chr = self.inbuf[self.next_idx];
            self.current_char = CharAndPosition {
                chr: Some(chr),
                line: self.line,
                position: self.position,
            };
            self.next_idx = self.next_idx + 1;
            self.position = self.position + 1;
            if chr == 10 || chr == 13 {
                self.line = self.line + 1;
                self.position = 0;
            }
        } else {
            self.current_char = CharAndPosition {
                chr: None,
                line: self.line,
                position: self.position,
            };
        }
    }

    /// Skips whitespace and line comments until the lookahead stands on the
    /// start of the next token or at the end of the input.
    fn fast_forward_comments_and_spaces(&mut self)
        requires
            old(self).well_formed(),
        ensures
            final (self).well_formed(),
            final (self).bytes() == old(self).bytes(),
            final (self).cursor() == skip_trivia(old(self).bytes(), old(self).cursor()),
    {
        let ghost buf = self.bytes();
        let ghost target = skip_trivia(buf, self.cursor());
        loop
            invariant
                self.well_formed(),
                self.bytes() == buf,
                skip_trivia(buf, self.cursor()) == target,
            ensures
                self.well_formed(),
                self.bytes() == buf,
                self.cursor() == target,
            decreases buf.len() - self.cursor(),
        {
            let tok = self.current_char;
            if is_blank(&tok) {
                self.step_next_char();
            } else if is_hash(&tok) {
                // a comment runs to the end of the line
                let ghost c = self.cursor();
                let ghost stop = skip_comment_body(buf, c);
                proof {
                    lemma_skip_comment_body(buf, c + 1);
                }
                let mut cur = self.current_char;
                while continues_comment(&cur)
                    invariant
                        self.well_formed(),
                        self.bytes() == buf,
                        cur == self.current_char,
                        skip_comment_body(buf, self.cursor()) == stop,
                    decreases buf.len() - self.cursor(),
                {
                    self.step_next_char();
                    cur = self.current_char;
                }
                proof {
                    assert(self.cursor() == stop);
                }
            } else {
                proof {
                    assert(skip_trivia(buf, self.cursor()) == self.cursor());
                }
                break ;
            }
        }
    }

    /// The view of one pulled item: `None` at the end of the input.
    pub open spec fn move_result_view(r: Result<Option<TokenAndSpan>, TokenizerError>) -> Option<
        Result<SpecTokenAndSpan, SpecTokenizerError>,
    > {
        match r {
            Ok(Some(t)) => Some(Ok(t@)),
            Ok(None) => None,
            Err(e) => Some(Err(e@)),
        }
    }

    /// Produces the next token, as [`tok_next`] describes: whitespace and
    /// comments are skipped, then a parenthesis, keyword, identifier,
    /// numeric literal, reserved operator character or `Unknown` character
    /// is recognized with its span, or `Ok(None)` reports the end of the
    /// input; malformed numeric text is reported as an error carrying the
    /// text and its span.
    fn move_to_next_token(&mut self) -> (r: Result<Option<TokenAndSpan>, TokenizerError>)
        requires
            old(self).well_formed(),
        ensures
            final (self).well_formed(),
            final (self).bytes() == old(self).bytes(),
            Self::move_result_view(r) == tok_next(old(self).bytes(), old(self).cursor()).result,
            final (self).cursor() == tok_next(old(self).bytes(), old(self).cursor()).next,
    {
        let ghost buf = self.bytes();
        let ghost j0 = self.cursor();
        self.fast_forward_comments_and_spaces();
        let ghost k = self.cursor();
        proof {
            lemma_pos_bounds(buf, 1, k);
        }
        let tok = self.current_char;
        // find parens
        if is_byte(&tok, 40) {
            self.step_next_char();
            return Ok(
                Some(
                    TokenAndSpan {
                        token: Token::OpenParen,
                        from: Position { line: tok.line, position: tok.position },
                        to: Position { line: tok.line, position: tok.position },
                    },
                ),
            );
        } else if is_byte(&tok, 41) {
            self.step_next_char();
            return Ok(
                Some(
                    TokenAndSpan {
                        token: Token::CloseParen,
                        from: Position { line: tok.line, position: tok.position },
                        to: Position { line: tok.line, position: tok.position },
                    },
                ),
            );
        }
        // recognize any identifiers
        if is_alphabetic(&tok) {
            let mut ident: Vec<u8> = Vec::new();
            let from = Position { line: tok.line, position: tok.position };
            let mut cur = tok;
            while is_identifier_like(&cur)
                invariant
                    self.well_formed(),
                    self.bytes() == buf,
                    cur == self.current_char,
                    0 <= k <= self.cursor() <= buf.len(),
                    scan_ident_end(buf, k) == scan_ident_end(buf, self.cursor()),
                    ident@ == buf.subrange(k, self.cursor()),
                decreases buf.len() - self.cursor(),
            {
                let ghost c0 = self.cursor();
                ident.push(cur.chr.unwrap());
                self.step_next_char();
                cur = self.current_char;
                proof {
                    assert(buf.subrange(k, c0 + 1) =~= buf.subrange(k, c0).push(buf[c0]));
                }
            }
            let ghost e = self.cursor();
            proof {
                assert(e == scan_ident_end(buf, k));
                lemma_scan_ident_end(buf, k);
                assert(is_ident_byte(buf[e - 1]));
                assert(col_at(buf, e) == col_at(buf, e - 1) + 1);
                lemma_pos_bounds(buf, 1, e);
            }
            let to = Position { line: cur.line, position: cur.position - 1 };
            if let Some(reserved_token) = Token::from_str(&ident) {
                return Ok(Some(TokenAndSpan { token: reserved_token, from, to }));
            }
            return Ok(
                Some(TokenAndSpan { token: Token::Identifier(bytes_to_string(&ident)), from, to }),
            );
        }
        // recognizing any numeric things
        if is_number_like(&tok) {
            let mut numstr: Vec<u8> = Vec::new();
            let from = Position { line: tok.line, position: tok.position };
            let mut cur = tok;
            while is_number_like(&cur)
                invariant
                    self.well_formed(),
                    self.bytes() == buf,
                    cur == self.current_char,
                    0 <= k <= self.cursor() <= buf.len(),
                    scan_number_end(buf, k) == scan_number_end(buf, self.cursor()),
                    numstr@ == buf.subrange(k, self.cursor()),
                decreases buf.len() - self.cursor(),
            {
                let ghost c0 = self.cursor();
                numstr.push(cur.chr.unwrap());
                self.step_next_char();
                cur = self.current_char;
                proof {
                    assert(buf.subrange(k, c0 + 1) =~= buf.subrange(k, c0).push(buf[c0]));
                }
            }
            let ghost e = self.cursor();
            proof {
                assert(e == scan_number_end(buf, k));
                lemma_scan_number_end(buf, k);
                assert(is_number_like_byte(buf[e - 1]));
                assert(col_at(buf, e) == col_at(buf, e - 1) + 1);
                lemma_pos_bounds(buf, 1, e);
            }
            let to = Position { line: cur.line, position: cur.position - 1 };
            if check_number_text(&numstr) {
                return Ok(
                    Some(
                        TokenAndSpan { token: Token::Number(bytes_to_string(&numstr)), from, to },
                    ),
                );
            } else {
                return Err(TokenizerError::from(&numstr, from, to));
            }
        }
        // every other case is either a reserved char, EOF or simply an unknown char
        self.step_next_char();
        match tok.chr {
            Some(char_value) => match Token::from_char(char_value) {
                Some(token) => Ok(
                    Some(
                        TokenAndSpan {
                            token,
                            from: Position { line: tok.line, position: tok.position },
                            to: Position { line: tok.line, position: tok.position },
                        },
                    ),
                ),
                None => Ok(
                    Some(
                        TokenAndSpan {
                            token: Token::Unknown(char_value as char),
                            from: Position { line: tok.line, position: tok.position },
                            to: Position { line: tok.line, position: tok.position },
                        },
                    ),
                ),
            },
            None => Ok(None),
        }
    }
}

impl Tokenizer for GreedyTokenizer {
    open spec fn wf(&self) -> bool {
        self.well_formed()
    }

    open spec fn stream(&self) -> Seq<Result<SpecTokenAndSpan, SpecTokenizerError>> {
        tok_stream(self.bytes(), self.cursor())
    }

    proof fn stream_len_bound(&self) {
        lemma_tok_stream_len(self.bytes(), self.cursor());
    }

    fn next(&mut self) -> (r: Option<Result<TokenAndSpan, TokenizerError>>) {
        let ghost buf = self.bytes();
        let ghost j0 = self.cursor();
        let r = self.move_to_next_token();
        proof {
            let step = tok_next(buf, j0);
            match step.result {
                None => {},
                Some(h) => {
                    assert((seq![h] + tok_stream(buf, step.next)).drop_first() =~= tok_stream(
                        buf,
                        step.next,
                    ));
                },
            }
        }
        match r {
            Ok(Some(item)) => Some(Ok(item)),
            Ok(None) => None,
            Err(item) => Some(Err(item)),
        }
    }
}

/// A token source that replays a fixed sequence of results; it stands in for
/// the real tokenizer where a token stream is already at hand.
pub struct VecTokenizer {
    items: Vec<Result<TokenAndSpan, TokenizerError>>,
}

impl VecTokenizer {
    pub fn new(items: Vec<Result<TokenAndSpan, TokenizerError>>) -> (r: VecTokenizer)
        ensures
            r.wf(),
            r.stream() == items@.map_values(
                |x: Result<TokenAndSpan, TokenizerError>| token_result_view(x),
            ),
    {
        VecTokenizer { items }
    }
}

impl Tokenizer for VecTokenizer {
    closed spec fn wf(&self) -> bool {
        true
    }

    closed spec fn stream(&self) -> Seq<Result<SpecTokenAndSpan, SpecTokenizerError>> {
        self.items@.map_values(|x: Result<TokenAndSpan, TokenizerError>| token_result_view(x))
    }

    proof fn stream_len_bound(&self) {
        vstd::std_specs::vec::axiom_spec_len(&self.items);
    }

    fn next(&mut self) -> (r: Option<Result<TokenAndSpan, TokenizerError>>) {
        if self.items.len() == 0 {
            None
        } else {
            let item = self.items.remove(0);
            proof {
                assert(self.stream() =~= old(self).stream().drop_first());
            }
            Some(item)
        }
    }
}

fn is_blank(tok: &CharAndPosition) -> (r: bool)
    ensures
        r == match tok.chr {
            Some(b) => is_blank_byte(b),
            None => false,
        },
{
    match tok.chr {
        Some(chr) => blank_byte(chr),
        None => false,
    }
}

fn is_hash(tok: &CharAndPosition) -> (r: bool)
    ensures
        r == (tok.chr == Some(35u8)),
{
    match tok.chr {
        Some(chr) => chr == 35,
        None => false,
    }
}

fn is_byte(tok: &CharAndPosition, b: u8) -> (r: bool)
    ensures
        r == (tok.chr == Some(b)),
{
    match tok.chr {
        Some(chr) => chr == b,
        None => false,
    }
}

fn continues_comment(tok: &CharAndPosition) -> (r: bool)
    ensures
        r == match tok.chr {
            Some(b) => !is_line_break(b),
            None => false,
        },
{
    match tok.chr {
        Some(chr) => !(chr == 10 || chr == 13),
        None => false,
    }
}

fn is_alphabetic(tok: &CharAndPosition) -> (r: bool)
    ensures
        r == match tok.chr {
            Some(b) => is_alpha_byte(b),
            None => false,
        },
{
    match tok.chr {
        Some(chr) => alpha_byte(chr),
        None => false,
    }
}

fn is_identifier_like(tok: &CharAndPosition) -> (r: bool)
    ensures
        r == match tok.chr {
            Some(b) => is_ident_byte(b),
            None => false,
        },
{
    match tok.chr {
        Some(chr) => ident_byte(chr),
        None => false,
    }
}

fn is_number_like(tok: &CharAndPosition) -> (r: bool)
    ensures
        r == match tok.chr {
            Some(b) => is_number_like_byte(b),
            None => false,
        },
{
    match tok.chr {
        Some(chr) => number_like_byte(chr),
        None => false,
    }
}

} // verus!
