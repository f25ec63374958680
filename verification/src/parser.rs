//! The recursive-descent parser.
//!
//! `RecursiveDescentParser` pulls spanned tokens from a [`Tokenizer`] one
//! balanced-parenthesis group at a time and reduces each group to one
//! expression. A call to `next_expression` yields `Ok(Some(ast))` for each
//! top-level form, `Ok(None)` at a clean end of input, and an error for a
//! malformed form; a tokenizer error is wrapped and passed on.
//!
//! The whole behaviour is pinned down by three specification functions:
//! [`spec_extract`] describes how one group is pulled off the token stream,
//! [`spec_reduce`] how a flat token window is reduced to expressions, and
//! [`spec_next_expression`] their composition.
use vstd::prelude::*;
use vstd::string::StringExecFns;

use crate::ast::AST;
use crate::ast::SpecAst;
use crate::ast::ast_view;
use crate::ast::asts_view;
use crate::ast::lemma_asts_view;
use crate::ast::lemma_asts_view_push;
use crate::ast::spec_ast_names_nonempty;
use crate::ast::spec_asts_names_nonempty;
use crate::ast::lemma_asts_names_nonempty_index;
use crate::ast::lemma_asts_names_nonempty_build;
use crate::tok::Position;
use crate::tok::SpecToken;
use crate::tok::SpecTokenAndSpan;
use crate::tok::SpecTokenizerError;
use crate::tok::Token;
use crate::tok::TokenAndSpan;
use crate::tok::Tokenizer;
use crate::tok::TokenizerError;
use crate::tok::spans_view;
use crate::tok::stream_identifiers_nonempty;

verus! {

/// What can go wrong while parsing: unbalanced parentheses, a token or an
/// expression of the wrong shape where a particular one was required, a
/// function literal without a body, a wrapped tokenizer failure, or an
/// internal invariant violation.
#[derive(Debug, PartialEq)]
pub enum ParseError {
    MismatchedParens(Position),
    FunctionNeedsABody,
    UnexpectedEof(Position),
    UnexpectedTokenError {
        expected: Option<Token>,
        found: Option<Token>,
        from: Position,
        to: Position,
    },
    UnexpectedExpressionError { expected: Option<AST>, found: Option<AST>, position: Position },
    TokenizerError(TokenizerError),
    UnknownError(String),
}

pub ghost enum SpecParseError {
    MismatchedParens(Position),
    FunctionNeedsABody,
    UnexpectedEof(Position),
    UnexpectedTokenError {
        expected: Option<SpecToken>,
        found: Option<SpecToken>,
        from: Position,
        to: Position,
    },
    UnexpectedExpressionError {
        expected: Option<SpecAst>,
        found: Option<SpecAst>,
        position: Position,
    },
    TokenizerError(SpecTokenizerError),
    UnknownError(Seq<char>),
}

pub open spec fn opt_token_view(t: Option<Token>) -> Option<SpecToken> {
    match t {
        Some(x) => Some(x@),
        None => None,
    }
}

pub open spec fn opt_ast_view(a: Option<AST>) -> Option<SpecAst> {
    match a {
        Some(x) => Some(ast_view(x)),
        None => None,
    }
}

impl View for ParseError {
    type V = SpecParseError;

    open spec fn view(&self) -> SpecParseError {
        match self {
            ParseError::MismatchedParens(p) => SpecParseError::MismatchedParens(*p),
            ParseError::FunctionNeedsABody => SpecParseError::FunctionNeedsABody,
            ParseError::UnexpectedEof(p) => SpecParseError::UnexpectedEof(*p),
            ParseError::UnexpectedTokenError { expected, found, from, to } => {
                SpecParseError::UnexpectedTokenError {
                    expected: opt_token_view(*expected),
                    found: opt_token_view(*found),
                    from: *from,
                    to: *to,
                }
            },
            ParseError::UnexpectedExpressionError { expected, found, position } => {
                SpecParseError::UnexpectedExpressionError {
                    expected: opt_ast_view(*expected),
                    found: opt_ast_view(*found),
                    position: *position,
                }
            },
            ParseError::TokenizerError(e) => SpecParseError::TokenizerError(e@),
            ParseError::UnknownError(s) => SpecParseError::UnknownError(s@),
        }
    }
}

/// How one token moves the parenthesis depth.
pub open spec fn paren_delta(t: SpecToken) -> int {
    match t {
        SpecToken::OpenParen => 1,
        SpecToken::CloseParen => -1,
        _ => 0,
    }
}

/// How pulling tokens for one group ends: with the group's tokens, with a
/// tokenizer failure, or with the stream exhausted while parentheses are
/// still open (or closed once too often).
pub ghost enum ExtractOutcome {
    Done(Seq<SpecTokenAndSpan>),
    Failed(SpecTokenizerError),
    Unbalanced(Seq<SpecTokenAndSpan>),
}

pub ghost struct Extraction {
    pub outcome: ExtractOutcome,
    pub used: nat,
}

/// Pulling tokens off the stream until the parenthesis depth returns to
/// zero: the tokens walked, and how many stream items were taken.
pub open spec fn extract_go(s: Seq<Result<SpecTokenAndSpan, SpecTokenizerError>>, depth: int) -> Extraction
    decreases s.len(),
{
    if s.len() == 0 {
        if depth == 0 {
            Extraction { outcome: ExtractOutcome::Done(Seq::empty()), used: 0 }
        } else {
            Extraction { outcome: ExtractOutcome::Unbalanced(Seq::empty()), used: 0 }
        }
    } else {
        match s[0] {
            Err(e) => Extraction { outcome: ExtractOutcome::Failed(e), used: 1 },
            Ok(t) => {
                let d = depth + paren_delta(t.token);
                if d < 0 {
                    Extraction { outcome: ExtractOutcome::Unbalanced(seq![t]), used: 1 }
                } else if d == 0 {
                    Extraction { outcome: ExtractOutcome::Done(seq![t]), used: 1 }
                } else {
                    let rest = extract_go(s.drop_first(), d);
                    match rest.outcome {
                        ExtractOutcome::Done(ts) => Extraction {
                            outcome: ExtractOutcome::Done(seq![t] + ts),
                            used: rest.used + 1,
                        },
                        ExtractOutcome::Failed(e) => Extraction {
                            outcome: ExtractOutcome::Failed(e),
                            used: rest.used + 1,
                        },
                        ExtractOutcome::Unbalanced(ts) => Extraction {
                            outcome: ExtractOutcome::Unbalanced(seq![t] + ts),
                            used: rest.used + 1,
                        },
                    }
                }
            },
        }
    }
}

pub ghost struct ExtractResult {
    pub result: Result<Seq<SpecTokenAndSpan>, SpecParseError>,
    pub used: nat,
}

/// One group pulled off the stream: its tokens on success, otherwise the
/// wrapped tokenizer failure or a mismatched-parentheses report carrying the
/// position of the last token walked.
pub open spec fn spec_extract(s: Seq<Result<SpecTokenAndSpan, SpecTokenizerError>>) -> ExtractResult {
    let e = extract_go(s, 0);
    match e.outcome {
        ExtractOutcome::Done(ts) => ExtractResult { result: Ok(ts), used: e.used },
        ExtractOutcome::Failed(err) => ExtractResult {
            result: Err(SpecParseError::TokenizerError(err)),
            used: e.used,
        },
        ExtractOutcome::Unbalanced(ts) => ExtractResult {
            result: Err(
                SpecParseError::MismatchedParens(
                    if ts.len() > 0 {
                        ts.last().from
                    } else {
                        Position { line: 0, position: 0 }
                    },
                ),
            ),
            used: e.used,
        },
    }
}

/// The walk into one token window that looks for the end of the group that
/// starts it: the index just past where the depth first fell to zero or
/// below, and the depth there (positive when the window ran out first).
pub ghost struct GroupScan {
    pub end: int,
    pub depth: int,
}

pub open spec fn scan_group(ts: Seq<SpecTokenAndSpan>, j: int, hi: int, depth: int) -> GroupScan
    decreases hi - j,
{
    if j < 0 || j >= hi {
        GroupScan { end: j, depth }
    } else {
        let d = depth + paren_delta(ts[j].token);
        if d <= 0 {
            GroupScan { end: j + 1, depth: d }
        } else {
            scan_group(ts, j + 1, hi, d)
        }
    }
}

/// The first balanced group in the window `[lo, hi)`: the index just past
/// its closing parenthesis, or a mismatched-parentheses report carrying the
/// position of the last token walked.
pub open spec fn spec_group(ts: Seq<SpecTokenAndSpan>, lo: int, hi: int) -> Result<
    int,
    SpecParseError,
> {
    let g = scan_group(ts, lo, hi, 0);
    if g.depth == 0 {
        Ok(g.end)
    } else {
        Err(SpecParseError::MismatchedParens(ts[g.end - 1].from))
    }
}

pub proof fn lemma_scan_group(ts: Seq<SpecTokenAndSpan>, j: int, hi: int, depth: int)
    requires
        0 <= j <= hi <= ts.len(),
    ensures
        j <= scan_group(ts, j, hi, depth).end <= hi,
        j < hi ==> j + 1 <= scan_group(ts, j, hi, depth).end,
    decreases hi - j,
{
    if j < hi {
        let d = depth + paren_delta(ts[j].token);
        if d > 0 {
            lemma_scan_group(ts, j + 1, hi, d);
        }
    }
}

/// A group that begins with an opening parenthesis spans at least the pair.
pub proof fn lemma_spec_group(ts: Seq<SpecTokenAndSpan>, lo: int, hi: int)
    requires
        0 <= lo < hi <= ts.len(),
        ts[lo].token is OpenParen,
    ensures
        (match spec_group(ts, lo, hi) {
            Ok(pe) => lo + 2 <= pe <= hi,
            Err(e) => true,
        }),
{
    assert(paren_delta(ts[lo].token) == 1);
    assert(scan_group(ts, lo, hi, 0) == scan_group(ts, lo + 1, hi, 1));
    if lo + 1 < hi {
        lemma_scan_group(ts, lo + 1, hi, 1);
    } else {
        assert(scan_group(ts, lo + 1, hi, 1).depth == 1);
    }
}

/// The parameter names in a window of tokens that must all be identifiers;
/// the first token of another shape is reported.
pub open spec fn params_of(ts: Seq<SpecTokenAndSpan>, lo: int, hi: int) -> Result<
    Seq<Seq<char>>,
    SpecParseError,
>
    decreases hi - lo,
{
    if lo < 0 || lo >= hi {
        Ok(Seq::empty())
    } else {
        match ts[lo].token {
            SpecToken::Identifier(name) => match params_of(ts, lo + 1, hi) {
                Ok(ps) => Ok(seq![name] + ps),
                Err(e) => Err(e),
            },
            _ => Err(
                SpecParseError::UnexpectedTokenError {
                    expected: Some(SpecToken::Identifier("_"@)),
                    found: Some(ts[lo].token),
                    from: ts[lo].from,
                    to: ts[lo].to,
                },
            ),
        }
    }
}

/// The expressions reduced from one token window, with the number of tokens
/// walked.
pub ghost struct ReduceOk {
    pub nodes: Seq<SpecAst>,
    pub used: nat,
}

/// The recursive reduction of the token window `[i, hi)`, rule by rule: a
/// number or identifier is a leaf; `def` takes an identifier and exactly one
/// reduced expression and becomes the `__assign` application; `fn` takes a
/// parenthesized identifier list and then a parenthesized body (a body that
/// is missing, unparenthesized, or empty makes a function without a body); an
/// opening parenthesis reduces the rest and either applies a leading
/// variable to the remaining nodes or passes a lone application or function
/// through; a closing parenthesis ends the window; an unknown character is
/// reported. Walking stops early where a rule fails.
pub open spec fn spec_reduce(ts: Seq<SpecTokenAndSpan>, i: int, hi: int) -> Result<
    ReduceOk,
    SpecParseError,
>
    decreases hi - i, 1int,
    via spec_reduce_decreases
{
    if i < 0 || i >= hi || hi > ts.len() {
        Ok(ReduceOk { nodes: Seq::empty(), used: 0 })
    } else {
        match ts[i].token {
            SpecToken::Number(text) => spec_reduce_step(
                ts,
                i,
                hi,
                SpecAst::NumberExpr(text),
                1,
            ),
            SpecToken::Identifier(name) => spec_reduce_step(
                ts,
                i,
                hi,
                SpecAst::VariableExpr(name),
                1,
            ),
            SpecToken::CloseParen => Ok(ReduceOk { nodes: Seq::empty(), used: 0 }),
            SpecToken::Unknown(c) => Err(
                SpecParseError::UnexpectedTokenError {
                    expected: None,
                    found: Some(SpecToken::Unknown(c)),
                    from: ts[i].from,
                    to: ts[i].to,
                },
            ),
            SpecToken::Def => {
                if i + 1 >= hi {
                    Err(SpecParseError::UnexpectedEof(ts[i].from))
                } else {
                    match ts[i + 1].token {
                        SpecToken::Identifier(name) => {
                            match spec_reduce(ts, i + 2, hi) {
                                Err(e) => Err(e),
                                Ok(rhs) => {
                                    if rhs.nodes.len() > 1 {
                                        Err(
                                            SpecParseError::UnexpectedExpressionError {
                                                expected: None,
                                                found: Some(rhs.nodes[1]),
                                                position: ts[i + 3].from,
                                            },
                                        )
                                    } else if rhs.nodes.len() == 0 {
                                        Err(
                                            SpecParseError::UnexpectedExpressionError {
                                                expected: None,
                                                found: None,
                                                position: ts[i + 1].from,
                                            },
                                        )
                                    } else {
                                        spec_reduce_step(
                                            ts,
                                            i,
                                            hi,
                                            SpecAst::EvaluateExpr {
                                                callee: "__assign"@,
                                                args: seq![
                                                    SpecAst::VariableExpr(name),
                                                    rhs.nodes[0],
                                                ],
                                            },
                                            (2 + rhs.used) as nat,
                                        )
                                    }
                                },
                            }
                        },
                        _ => Err(
                            SpecParseError::UnexpectedTokenError {
                                expected: Some(SpecToken::Identifier("_"@)),
                                found: Some(ts[i + 1].token),
                                from: ts[i + 1].from,
                                to: ts[i + 1].to,
                            },
                        ),
                    }
                }
            },
            SpecToken::Fn => {
                if i + 1 >= hi {
                    Err(SpecParseError::UnexpectedEof(ts[i].from))
                } else if !(ts[i + 1].token is OpenParen) {
                    Err(
                        SpecParseError::UnexpectedTokenError {
                            expected: Some(SpecToken::OpenParen),
                            found: Some(ts[i + 1].token),
                            from: ts[i + 1].from,
                            to: ts[i + 1].to,
                        },
                    )
                } else {
                    match spec_group(ts, i + 1, hi) {
                        Err(e) => Err(e),
                        Ok(pe) => match params_of(ts, i + 2, pe - 1) {
                            Err(e) => Err(e),
                            Ok(params) => {
                                if pe >= hi || !(ts[pe].token is OpenParen) {
                                    Err(SpecParseError::FunctionNeedsABody)
                                } else {
                                    match spec_group(ts, pe, hi) {
                                        Err(e) => Err(e),
                                        Ok(be) => match spec_reduce(ts, pe + 1, be - 1) {
                                            Err(e) => Err(e),
                                            Ok(body) => {
                                                if body.used == 0 {
                                                    Err(SpecParseError::FunctionNeedsABody)
                                                } else {
                                                    spec_reduce_step(
                                                        ts,
                                                        i,
                                                        hi,
                                                        SpecAst::FunctionExpr {
                                                            parameters: params,
                                                            statements: body.nodes,
                                                        },
                                                        (pe - i + 2 + body.used) as nat,
                                                    )
                                                }
                                            },
                                        },
                                    }
                                }
                            },
                        },
                    }
                }
            },
            SpecToken::OpenParen => {
                match spec_reduce(ts, i + 1, hi) {
                    Err(e) => Err(e),
                    Ok(inner) => {
                        if inner.nodes.len() >= 1 && inner.nodes[0] is VariableExpr {
                            spec_reduce_step(
                                ts,
                                i,
                                hi,
                                SpecAst::EvaluateExpr {
                                    callee: inner.nodes[0]->VariableExpr_0,
                                    args: inner.nodes.drop_first(),
                                },
                                (inner.used + 1) as nat,
                            )
                        } else if inner.nodes.len() == 1 && (inner.nodes[0] is EvaluateExpr
                            || inner.nodes[0] is FunctionExpr) {
                            spec_reduce_step(ts, i, hi, inner.nodes[0], (inner.used + 1) as nat)
                        } else {
                            Err(
                                SpecParseError::UnexpectedExpressionError {
                                    expected: Some(SpecAst::VariableExpr("_"@)),
                                    found: if inner.nodes.len() > 0 {
                                        Some(inner.nodes[0])
                                    } else {
                                        None
                                    },
                                    position: ts[i + inner.used].from,
                                },
                            )
                        }
                    },
                }
            },
        }
    }
}

/// One reduced node prepended to the reduction of the rest of the window.
pub open spec fn spec_reduce_step(
    ts: Seq<SpecTokenAndSpan>,
    i: int,
    hi: int,
    node: SpecAst,
    step: nat,
) -> Result<ReduceOk, SpecParseError>
    decreases hi - i, 0int,
    via spec_reduce_step_decreases
{
    let tail = if 1 <= step && i + step < hi {
        spec_reduce(ts, i + step, hi)
    } else {
        Ok(ReduceOk { nodes: Seq::empty(), used: 0 })
    };
    match tail {
        Err(e) => Err(e),
        Ok(rest) => Ok(
            ReduceOk { nodes: seq![node] + rest.nodes, used: (step + rest.used) as nat },
        ),
    }
}

#[via_fn]
proof fn spec_reduce_decreases(ts: Seq<SpecTokenAndSpan>, i: int, hi: int) {
    if 0 <= i < hi <= ts.len() {
        match ts[i].token {
            SpecToken::Fn => {
                if i + 1 < hi && ts[i + 1].token is OpenParen {
                    lemma_spec_group(ts, i + 1, hi);
                    match spec_group(ts, i + 1, hi) {
                        Ok(pe) => {
                            if pe < hi && ts[pe].token is OpenParen {
                                lemma_spec_group(ts, pe, hi);
                            }
                        },
                        Err(e) => {},
                    }
                }
            },
            _ => {},
        }
    }
}

#[via_fn]
proof fn spec_reduce_step_decreases(
    ts: Seq<SpecTokenAndSpan>,
    i: int,
    hi: int,
    node: SpecAst,
    step: nat,
) {
}

/// A reduction walks at most its window, and yields at most one node per
/// token walked.
pub proof fn lemma_reduce_bounds(ts: Seq<SpecTokenAndSpan>, i: int, hi: int)
    ensures
        (match spec_reduce(ts, i, hi) {
            Ok(r) => r.used <= hi - i || r.used == 0,
            Err(e) => true,
        }),
        0 <= i <= hi <= ts.len() ==> (match spec_reduce(ts, i, hi) {
            Ok(r) => r.nodes.len() <= r.used <= hi - i,
            Err(e) => true,
        }),
    decreases hi - i, 1int,
{
    if 0 <= i < hi <= ts.len() {
        match ts[i].token {
            SpecToken::Number(text) => {
                lemma_reduce_step_bounds(ts, i, hi, SpecAst::NumberExpr(text), 1);
            },
            SpecToken::Identifier(name) => {
                lemma_reduce_step_bounds(ts, i, hi, SpecAst::VariableExpr(name), 1);
            },
            SpecToken::CloseParen => {},
            SpecToken::Unknown(c) => {},
            SpecToken::Def => {
                if i + 1 < hi {
                    match ts[i + 1].token {
                        SpecToken::Identifier(name) => {
                            lemma_reduce_bounds(ts, i + 2, hi);
                            match spec_reduce(ts, i + 2, hi) {
                                Err(e) => {},
                                Ok(rhs) => {
                                    if 1 == rhs.nodes.len() {
                                        lemma_reduce_step_bounds(
                                            ts,
                                            i,
                                            hi,
                                            SpecAst::EvaluateExpr {
                                                callee: "__assign"@,
                                                args: seq![
                                                    SpecAst::VariableExpr(name),
                                                    rhs.nodes[0],
                                                ],
                                            },
                                            (2 + rhs.used) as nat,
                                        );
                                    }
                                },
                            }
                        },
                        _ => {},
                    }
                }
            },
            SpecToken::Fn => {
                if i + 1 < hi && ts[i + 1].token is OpenParen {
                    lemma_spec_group(ts, i + 1, hi);
                    match spec_group(ts, i + 1, hi) {
                        Err(e) => {},
                        Ok(pe) => {
                            match params_of(ts, i + 2, pe - 1) {
                                Err(e) => {},
                                Ok(params) => {
                                    if pe < hi && ts[pe].token is OpenParen {
                                        lemma_spec_group(ts, pe, hi);
                                        match spec_group(ts, pe, hi) {
                                            Err(e) => {},
                                            Ok(be) => {
                                                lemma_reduce_bounds(ts, pe + 1, be - 1);
                                                match spec_reduce(ts, pe + 1, be - 1) {
                                                    Err(e) => {},
                                                    Ok(body) => {
                                                        if body.used != 0 {
                                                            lemma_reduce_step_bounds(
                                                                ts,
                                                                i,
                                                                hi,
                                                                SpecAst::FunctionExpr {
                                                                    parameters: params,
                                                                    statements: body.nodes,
                                                                },
                                                                (pe - i + 2 + body.used) as nat,
                                                            );
                                                        }
                                                    },
                                                }
                                            },
                                        }
                                    }
                                },
                            }
                        },
                    }
                }
            },
            SpecToken::OpenParen => {
                lemma_reduce_bounds(ts, i + 1, hi);
                match spec_reduce(ts, i + 1, hi) {
                    Err(e) => {},
                    Ok(inner) => {
                        if inner.nodes.len() >= 1 && inner.nodes[0] is VariableExpr {
                            lemma_reduce_step_bounds(
                                ts,
                                i,
                                hi,
                                SpecAst::EvaluateExpr {
                                    callee: inner.nodes[0]->VariableExpr_0,
                                    args: inner.nodes.drop_first(),
                                },
                                (inner.used + 1) as nat,
                            );
                        } else if inner.nodes.len() == 1 && (inner.nodes[0] is EvaluateExpr
                            || inner.nodes[0] is FunctionExpr) {
                            lemma_reduce_step_bounds(ts, i, hi, inner.nodes[0], (inner.used
                                + 1) as nat);
                        }
                    },
                }
            },
        }
    }
}

proof fn lemma_reduce_step_bounds(
    ts: Seq<SpecTokenAndSpan>,
    i: int,
    hi: int,
    node: SpecAst,
    step: nat,
)
    requires
        0 <= i < hi <= ts.len(),
        1 <= step <= hi - i,
    ensures
        (match spec_reduce_step(ts, i, hi, node, step) {
            Ok(r) => 1 <= r.nodes.len() <= r.used <= hi - i,
            Err(e) => true,
        }),
    decreases hi - i, 0int,
{
    if i + step < hi {
        lemma_reduce_bounds(ts, i + step, hi);
    }
}


/// The parenthesis depth after the first `j` items of a stream (a failed
/// item moves it nowhere).
pub open spec fn prefix_depth(s: Seq<Result<SpecTokenAndSpan, SpecTokenizerError>>, j: int) -> int
    decreases j,
{
    if j <= 0 {
        0
    } else {
        prefix_depth(s, j - 1) + (match s[j - 1] {
            Ok(t) => paren_delta(t.token),
            Err(e) => 0,
        })
    }
}

proof fn lemma_prefix_depth_shift(s: Seq<Result<SpecTokenAndSpan, SpecTokenizerError>>, j: int)
    requires
        0 <= j < s.len(),
    ensures
        prefix_depth(s, j + 1) == prefix_depth(s, 1) + prefix_depth(s.drop_first(), j),
    decreases j,
{
    if j > 0 {
        lemma_prefix_depth_shift(s, j - 1);
        assert(s.drop_first()[j - 1] == s[j]);
    }
}

proof fn lemma_extract_balanced(
    s: Seq<Result<SpecTokenAndSpan, SpecTokenizerError>>,
    k: int,
    depth: int,
)
    requires
        1 <= k <= s.len(),
        0 <= depth,
        forall|j: int| 0 <= j < k ==> s[j] is Ok,
        forall|j: int| 0 < j < k ==> depth + prefix_depth(s, j) > 0,
        depth + prefix_depth(s, k) == 0,
    ensures
        extract_go(s, depth) == (Extraction {
            outcome: ExtractOutcome::Done(Seq::new(k as nat, |i: int| s[i]->Ok_0)),
            used: k as nat,
        }),
    decreases k,
{
    assert(s[0] is Ok);
    let t = s[0]->Ok_0;
    let d = depth + paren_delta(t.token);
    assert(prefix_depth(s, 0) == 0);
    assert(prefix_depth(s, 1) == paren_delta(t.token));
    if k == 1 {
        assert(d == 0);
        assert(Seq::new(1nat, |i: int| s[i]->Ok_0) =~= seq![t]);
    } else {
        assert(d == depth + prefix_depth(s, 1));
        assert(d > 0);
        let rest = s.drop_first();
        assert forall|j: int| 0 <= j < k - 1 implies rest[j] is Ok by {
            assert(rest[j] == s[j + 1]);
        }
        assert forall|j: int| 0 < j < k - 1 implies d + prefix_depth(rest, j) > 0 by {
            lemma_prefix_depth_shift(s, j);
        }
        assert(d + prefix_depth(rest, k - 1) == 0) by {
            lemma_prefix_depth_shift(s, k - 1);
        }
        lemma_extract_balanced(rest, k - 1, d);
        assert(seq![t] + Seq::new((k - 1) as nat, |i: int| rest[i]->Ok_0) =~= Seq::new(
            k as nat,
            |i: int| s[i]->Ok_0,
        )) by {
            assert forall|i: int| 0 <= i < k - 1 implies rest[i]->Ok_0 == s[i + 1]->Ok_0 by {
                assert(rest[i] == s[i + 1]);
            }
        }
    }
}

/// Law: a well-formed balanced token sequence at the head of the stream is
/// consumed exactly. When the first `k` stream items are tokens whose
/// parenthesis depth first returns to zero at `k`, one parsing step takes
/// exactly those `k` items and no more, leaving the stream right after the
/// group's closing parenthesis.
pub proof fn lemma_balanced_group_consumed_exactly(
    s: Seq<Result<SpecTokenAndSpan, SpecTokenizerError>>,
    k: int,
)
    requires
        1 <= k <= s.len(),
        forall|j: int| 0 <= j < k ==> s[j] is Ok,
        forall|j: int| 0 < j < k ==> prefix_depth(s, j) > 0,
        prefix_depth(s, k) == 0,
    ensures
        spec_extract(s).used == k,
        spec_extract(s).result == Ok::<Seq<SpecTokenAndSpan>, SpecParseError>(
            Seq::new(k as nat, |i: int| s[i]->Ok_0),
        ),
        spec_next_expression(s).used == k,
{
    lemma_extract_balanced(s, k, 0);
}

/// Law: an empty token stream parses to a clean end of input.
pub proof fn lemma_empty_stream_parses_to_none(s: Seq<Result<SpecTokenAndSpan, SpecTokenizerError>>)
    requires
        s.len() == 0,
    ensures
        spec_next_expression(s).result == Ok::<Option<SpecAst>, SpecParseError>(None),
        spec_next_expression(s).used == 0,
{
}


/// Every identifier token of a window carries at least one character.
pub open spec fn identifiers_nonempty(ts: Seq<SpecTokenAndSpan>) -> bool {
    forall|k: int|
        0 <= k < ts.len() ==> ((#[trigger] ts[k]).token matches SpecToken::Identifier(name)
            ==> name.len() > 0)
}

/// Law: reduction never makes up a name. When every identifier token of the
/// window carries at least one character, every variable name and every
/// callee of the reduced expressions is non-empty; in particular each
/// application's callee is `__assign` or a lexed identifier or operator.
pub proof fn lemma_reduce_names_nonempty(ts: Seq<SpecTokenAndSpan>, i: int, hi: int)
    requires
        identifiers_nonempty(ts),
    ensures
        (match spec_reduce(ts, i, hi) {
            Ok(r) => spec_asts_names_nonempty(r.nodes),
            Err(e) => true,
        }),
    decreases hi - i, 1int,
{
    if 0 <= i < hi <= ts.len() {
        match ts[i].token {
            SpecToken::Number(text) => {
                lemma_reduce_step_names(ts, i, hi, SpecAst::NumberExpr(text), 1);
            },
            SpecToken::Identifier(name) => {
                lemma_reduce_step_names(ts, i, hi, SpecAst::VariableExpr(name), 1);
            },
            SpecToken::CloseParen => {},
            SpecToken::Unknown(c) => {},
            SpecToken::Def => {
                if i + 1 < hi {
                    match ts[i + 1].token {
                        SpecToken::Identifier(name) => {
                            lemma_reduce_names_nonempty(ts, i + 2, hi);
                            match spec_reduce(ts, i + 2, hi) {
                                Err(e) => {},
                                Ok(rhs) => {
                                    if 1 == rhs.nodes.len() {
                                        lemma_asts_names_nonempty_index(rhs.nodes);
                                        let node = SpecAst::EvaluateExpr {
                                            callee: "__assign"@,
                                            args: seq![
                                                SpecAst::VariableExpr(name),
                                                rhs.nodes[0],
                                            ],
                                        };
                                        reveal_strlit("__assign");
                                        assert("__assign"@.len() == 8);
                                        match node {
                                            SpecAst::EvaluateExpr { callee, args } => {
                                                assert forall|m: int|
                                                    0 <= m < args.len() implies spec_ast_names_nonempty(
                                                    args[m],
                                                ) by {
                                                    if m == 0 {
                                                        assert(args[0] == SpecAst::VariableExpr(
                                                            name,
                                                        ));
                                                    } else {
                                                        assert(args[1] == rhs.nodes[0]);
                                                    }
                                                }
                                                lemma_asts_names_nonempty_build(args);
                                            },
                                            _ => {},
                                        }
                                        lemma_reduce_step_names(
                                            ts,
                                            i,
                                            hi,
                                            node,
                                            (2 + rhs.used) as nat,
                                        );
                                    }
                                },
                            }
                        },
                        _ => {},
                    }
                }
            },
            SpecToken::Fn => {
                if i + 1 < hi && ts[i + 1].token is OpenParen {
                    lemma_spec_group(ts, i + 1, hi);
                    match spec_group(ts, i + 1, hi) {
                        Err(e) => {},
                        Ok(pe) => {
                            match params_of(ts, i + 2, pe - 1) {
                                Err(e) => {},
                                Ok(params) => {
                                    if pe < hi && ts[pe].token is OpenParen {
                                        lemma_spec_group(ts, pe, hi);
                                        match spec_group(ts, pe, hi) {
                                            Err(e) => {},
                                            Ok(be) => {
                                                lemma_reduce_names_nonempty(ts, pe + 1, be - 1);
                                                match spec_reduce(ts, pe + 1, be - 1) {
                                                    Err(e) => {},
                                                    Ok(body) => {
                                                        if body.used != 0 {
                                                            lemma_reduce_step_names(
                                                                ts,
                                                                i,
                                                                hi,
                                                                SpecAst::FunctionExpr {
                                                                    parameters: params,
                                                                    statements: body.nodes,
                                                                },
                                                                (pe - i + 2 + body.used) as nat,
                                                            );
                                                        }
                                                    },
                                                }
                                            },
                                        }
                                    }
                                },
                            }
                        },
                    }
                }
            },
            SpecToken::OpenParen => {
                lemma_reduce_names_nonempty(ts, i + 1, hi);
                match spec_reduce(ts, i + 1, hi) {
                    Err(e) => {},
                    Ok(inner) => {
                        lemma_asts_names_nonempty_index(inner.nodes);
                        if inner.nodes.len() >= 1 && inner.nodes[0] is VariableExpr {
                            let node = SpecAst::EvaluateExpr {
                                callee: inner.nodes[0]->VariableExpr_0,
                                args: inner.nodes.drop_first(),
                            };
                            match node {
                                SpecAst::EvaluateExpr { callee, args } => {
                                    assert forall|m: int|
                                        0 <= m < args.len() implies spec_ast_names_nonempty(
                                        args[m],
                                    ) by {
                                        assert(args[m] == inner.nodes[m + 1]);
                                    }
                                    lemma_asts_names_nonempty_build(args);
                                },
                                _ => {},
                            }
                            lemma_reduce_step_names(ts, i, hi, node, (inner.used + 1) as nat);
                        } else if inner.nodes.len() == 1 && (inner.nodes[0] is EvaluateExpr
                            || inner.nodes[0] is FunctionExpr) {
                            lemma_reduce_step_names(
                                ts,
                                i,
                                hi,
                                inner.nodes[0],
                                (inner.used + 1) as nat,
                            );
                        }
                    },
                }
            },
        }
    }
}

proof fn lemma_reduce_step_names(
    ts: Seq<SpecTokenAndSpan>,
    i: int,
    hi: int,
    node: SpecAst,
    step: nat,
)
    requires
        0 <= i < hi <= ts.len(),
        1 <= step,
        identifiers_nonempty(ts),
        spec_ast_names_nonempty(node),
    ensures
        (match spec_reduce_step(ts, i, hi, node, step) {
            Ok(r) => spec_asts_names_nonempty(r.nodes),
            Err(e) => true,
        }),
    decreases hi - i, 0int,
{
    if i + step < hi {
        lemma_reduce_names_nonempty(ts, i + step, hi);
        match spec_reduce(ts, i + step, hi) {
            Ok(rr) => {
                lemma_asts_names_nonempty_index(rr.nodes);
            },
            Err(e) => {},
        }
    }
    match spec_reduce_step(ts, i, hi, node, step) {
        Ok(r) => {
            assert forall|m: int| 0 <= m < r.nodes.len() implies spec_ast_names_nonempty(
                r.nodes[m],
            ) by {
                if m == 0 {
                    assert(r.nodes[0] == node);
                }
            }
            lemma_asts_names_nonempty_build(r.nodes);
        },
        Err(e) => {},
    }
}

/// Extraction hands stream tokens through unchanged, so their identifier
/// text stays non-empty.
proof fn lemma_extract_identifiers_nonempty(
    s: Seq<Result<SpecTokenAndSpan, SpecTokenizerError>>,
    depth: int,
)
    requires
        stream_identifiers_nonempty(s),
    ensures
        (match extract_go(s, depth).outcome {
            ExtractOutcome::Done(ts) => identifiers_nonempty(ts),
            ExtractOutcome::Failed(e) => true,
            ExtractOutcome::Unbalanced(ts) => true,
        }),
    decreases s.len(),
{
    if s.len() > 0 {
        match s[0] {
            Err(e) => {},
            Ok(t) => {
                let d = depth + paren_delta(t.token);
                assert(s[0] is Ok);
                if d < 0 {
                } else if d == 0 {
                    assert forall|k: int|
                        0 <= k < seq![t].len() implies ((#[trigger] seq![t][k]).token
                        matches SpecToken::Identifier(name) ==> name.len() > 0) by {
                        assert(seq![t][k] == t);
                    }
                } else {
                    assert forall|k: int|
                        0 <= k < s.drop_first().len() implies (#[trigger] s.drop_first()[k]
                        matches Ok(u) ==> (u.token matches SpecToken::Identifier(name)
                            ==> name.len() > 0)) by {
                        assert(s.drop_first()[k] == s[k + 1]);
                    }
                    lemma_extract_identifiers_nonempty(s.drop_first(), d);
                    match extract_go(s.drop_first(), d).outcome {
                        ExtractOutcome::Done(ts2) => {
                            let ts = seq![t] + ts2;
                            assert forall|k: int|
                                0 <= k < ts.len() implies ((#[trigger] ts[k]).token
                                matches SpecToken::Identifier(name) ==> name.len() > 0) by {
                                if k == 0 {
                                    assert(ts[0] == t);
                                } else {
                                    assert(ts[k] == ts2[k - 1]);
                                }
                            }
                        },
                        ExtractOutcome::Failed(e) => {},
                        ExtractOutcome::Unbalanced(ts2) => {},
                    }
                }
            },
        }
    }
}

/// Law: every application a parse produces has a non-empty callee, and
/// every variable a non-empty name, whenever the stream's identifier tokens
/// carry non-empty text — which the tokenizer guarantees
/// (`lemma_stream_identifiers_nonempty`).
pub proof fn lemma_parsed_names_nonempty(s: Seq<Result<SpecTokenAndSpan, SpecTokenizerError>>)
    requires
        stream_identifiers_nonempty(s),
    ensures
        (match spec_next_expression(s).result {
            Ok(Some(a)) => spec_ast_names_nonempty(a),
            Ok(None) => true,
            Err(e) => true,
        }),
{
    lemma_extract_identifiers_nonempty(s, 0);
    match spec_extract(s).result {
        Ok(ts) => {
            if ts.len() > 0 {
                lemma_reduce_names_nonempty(ts, 0, ts.len() as int);
                match spec_reduce(ts, 0, ts.len() as int) {
                    Ok(red) => {
                        lemma_asts_names_nonempty_index(red.nodes);
                    },
                    Err(e) => {},
                }
            }
        },
        Err(e) => {},
    }
}

/// The view of a balanced-group scan result.
pub open spec fn group_result_view(r: Result<usize, ParseError>) -> Result<int, SpecParseError> {
    match r {
        Ok(e) => Ok(e as int),
        Err(e) => Err(e@),
    }
}

/// The view of an extraction result.
pub open spec fn extract_result_view(r: Result<Vec<TokenAndSpan>, ParseError>) -> Result<
    Seq<SpecTokenAndSpan>,
    SpecParseError,
> {
    match r {
        Ok(v) => Ok(spans_view(v@)),
        Err(e) => Err(e@),
    }
}

/// The view of a reduction result.
pub open spec fn reduce_result_view(r: Result<(Vec<AST>, usize), ParseError>) -> Result<
    ReduceOk,
    SpecParseError,
> {
    match r {
        Ok(p) => Ok(ReduceOk { nodes: asts_view(p.0@), used: p.1 as nat }),
        Err(e) => Err(e@),
    }
}

/// The view of one parsed top-level form.
pub open spec fn parse_result_view(r: Result<Option<Box<AST>>, ParseError>) -> Result<
    Option<SpecAst>,
    SpecParseError,
> {
    match r {
        Ok(Some(b)) => Ok(Some(ast_view(*b))),
        Ok(None) => Ok(None),
        Err(e) => Err(e@),
    }
}

/// One call to `next_expression`: the form parsed (or the error), and how
/// many stream items were taken.
pub ghost struct NextStep {
    pub result: Result<Option<SpecAst>, SpecParseError>,
    pub used: nat,
}

/// One top-level form pulled off the stream and reduced: `Ok(None)` at a
/// clean end of input; exactly one expression otherwise. A group that
/// reduces to another number of expressions would be an internal invariant
/// violation and is reported as such.
pub open spec fn spec_next_expression(s: Seq<Result<SpecTokenAndSpan, SpecTokenizerError>>) -> NextStep {
    let ex = spec_extract(s);
    NextStep {
        result: match ex.result {
            Err(e) => Err(e),
            Ok(ts) => {
                if ts.len() == 0 {
                    Ok(None)
                } else {
                    match spec_reduce(ts, 0, ts.len() as int) {
                        Err(e) => Err(e),
                        Ok(red) => {
                            if red.nodes.len() == 1 {
                                Ok(Some(red.nodes[0]))
                            } else if red.nodes.len() > 1 {
                                Err(
                                    SpecParseError::UnknownError(
                                        "Not sure how we got here, but we have multiple statements with the same open/close brackets"@,
                                    ),
                                )
                            } else {
                                Err(SpecParseError::UnknownError("Here we are but how"@))
                            }
                        },
                    }
                }
            },
        },
        used: ex.used,
    }
}


/// Advancing the reduction loop by one rule: when the window at `parsed`
/// reduces by one node and `step` tokens, the accumulated result composes
/// with the rest of the window.
proof fn lemma_step_advance(
    ts: Seq<SpecTokenAndSpan>,
    lo: int,
    hi: int,
    parsed: int,
    acc: Seq<SpecAst>,
    node: SpecAst,
    step: nat,
)
    requires
        lo <= parsed < hi <= ts.len(),
        1 <= step,
        spec_reduce(ts, parsed, hi) == spec_reduce_step(ts, parsed, hi, node, step),
        (match spec_reduce(ts, parsed, hi) {
            Ok(rest) => spec_reduce(ts, lo, hi) == Ok::<ReduceOk, SpecParseError>(
                ReduceOk { nodes: acc + rest.nodes, used: ((parsed - lo) + rest.used) as nat },
            ),
            Err(e) => spec_reduce(ts, lo, hi) == Err::<ReduceOk, SpecParseError>(e),
        }),
    ensures
        (match spec_reduce(ts, parsed + step, hi) {
            Ok(rest2) => spec_reduce(ts, lo, hi) == Ok::<ReduceOk, SpecParseError>(
                ReduceOk {
                    nodes: acc.push(node) + rest2.nodes,
                    used: ((parsed + step - lo) + rest2.used) as nat,
                },
            ),
            Err(e2) => spec_reduce(ts, lo, hi) == Err::<ReduceOk, SpecParseError>(e2),
        }),
{
    if parsed + step < hi {
        match spec_reduce(ts, parsed + step, hi) {
            Ok(rest2) => {
                assert(acc + (seq![node] + rest2.nodes) =~= acc.push(node) + rest2.nodes);
            },
            Err(e2) => {},
        }
    } else {
        assert(spec_reduce(ts, parsed + step, hi) == Ok::<ReduceOk, SpecParseError>(
            ReduceOk { nodes: Seq::empty(), used: 0 },
        ));
        assert(acc + (seq![node] + Seq::<SpecAst>::empty()) =~= acc.push(node));
        assert(acc.push(node) + Seq::<SpecAst>::empty() =~= acc.push(node));
    }
}

/// The parser: a tokenizer pulled one balanced group at a time.
pub struct RecursiveDescentParser<T: Tokenizer> {
    tokenizer: T,
}

impl<T: Tokenizer> RecursiveDescentParser<T> {
    /// The tokenizer it draws from is in a fit state.
    pub closed spec fn wf(&self) -> bool {
        self.tokenizer.wf()
    }

    /// The remaining token stream.
    pub closed spec fn stream(&self) -> Seq<Result<SpecTokenAndSpan, SpecTokenizerError>> {
        self.tokenizer.stream()
    }

    pub fn new(tokenizer: T) -> (r: Self)
        requires
            tokenizer.wf(),
        ensures
            r.wf(),
            r.stream() == tokenizer.stream(),
    {
        Self { tokenizer }
    }

    /// Pulls tokens until the parenthesis depth first returns to zero, as
    /// [`spec_extract`] describes; the stream is left right after the last
    /// item taken.
    #[verifier::loop_isolation(false)]
    #[verifier::rlimit(50)]
    fn extract_until_brackets_match(tokenizer: &mut T) -> (r: Result<Vec<TokenAndSpan>, ParseError>)
        requires
            old(tokenizer).wf(),
        ensures
            final (tokenizer).wf(),
            extract_result_view(r) == spec_extract(old(tokenizer).stream()).result,
            final (tokenizer).stream() == old(tokenizer).stream().skip(
                spec_extract(old(tokenizer).stream()).used as int,
            ),
    {
        let ghost s0 = tokenizer.stream();
        proof {
            tokenizer.stream_len_bound();
        }
        let mut extracted_tokens: Vec<TokenAndSpan> = Vec::new();
        let mut paren_count: usize = 0;
        loop
            invariant
                tokenizer.wf(),
                s0.len() <= usize::MAX,
                tokenizer.stream().len() <= s0.len(),
                tokenizer.stream() == s0.skip(s0.len() - tokenizer.stream().len()),
                extracted_tokens@.len() == s0.len() - tokenizer.stream().len(),
                paren_count <= extracted_tokens@.len(),
                (match extract_go(tokenizer.stream(), paren_count as int).outcome {
                    ExtractOutcome::Done(ts) => extract_go(s0, 0).outcome == ExtractOutcome::Done(
                        spans_view(extracted_tokens@) + ts,
                    ),
                    ExtractOutcome::Failed(e) => extract_go(s0, 0).outcome
                        == ExtractOutcome::Failed(e),
                    ExtractOutcome::Unbalanced(ts) => extract_go(s0, 0).outcome
                        == ExtractOutcome::Unbalanced(spans_view(extracted_tokens@) + ts),
                }),
                extract_go(s0, 0).used == extracted_tokens@.len() + extract_go(
                    tokenizer.stream(),
                    paren_count as int,
                ).used,
            decreases tokenizer.stream().len(),
        {
            let ghost s_cur = tokenizer.stream();
            let ghost depth0 = paren_count as int;
            let next_item = tokenizer.next();
            match next_item {
                None => {
                    // the stream ran dry
                    proof {
                        assert(s_cur.len() == 0);
                        assert(spans_view(extracted_tokens@) + Seq::<SpecTokenAndSpan>::empty()
                            =~= spans_view(extracted_tokens@));
                    }
                    if paren_count != 0 {
                        let last = extracted_tokens.len() - 1;
                        return Err(ParseError::MismatchedParens(extracted_tokens[last].from));
                    } else {
                        return Ok(extracted_tokens);
                    }
                },
                Some(Err(tokenizer_error)) => {
                    proof {
                        assert(s_cur[0] == Err::<SpecTokenAndSpan, SpecTokenizerError>(
                            tokenizer_error@,
                        ));
                    }
                    return Err(ParseError::TokenizerError(tokenizer_error));
                },
                Some(Ok(token_and_span)) => {
                    let ghost t_v = token_and_span@;
                    let ghost acc0 = spans_view(extracted_tokens@);
                    proof {
                        assert(s_cur[0] == Ok::<SpecTokenAndSpan, SpecTokenizerError>(t_v));
                        assert(spans_view(extracted_tokens@.push(token_and_span)) =~= acc0.push(
                            t_v,
                        ));
                        assert(s_cur.drop_first() =~= s0.skip(
                            s0.len() - s_cur.len() + 1,
                        ));
                    }
                    let mut is_done = false;
                    match &token_and_span.token {
                        Token::OpenParen => {
                            paren_count = paren_count + 1;
                        },
                        Token::CloseParen => {
                            if paren_count == 0 {
                                // one closing parenthesis too many
                                let position = token_and_span.from;
                                extracted_tokens.push(token_and_span);
                                proof {
                                    assert(acc0 + seq![t_v] =~= acc0.push(t_v));
                                }
                                return Err(ParseError::MismatchedParens(position));
                            } else {
                                paren_count = paren_count - 1;
                                if paren_count == 0 {
                                    is_done = true;
                                }
                            }
                        },
                        _ => {
                            if paren_count == 0 {
                                is_done = true;
                            }
                        },
                    }
                    extracted_tokens.push(token_and_span);
                    if is_done {
                        proof {
                            assert(acc0 + seq![t_v] =~= acc0.push(t_v));
                        }
                        return Ok(extracted_tokens);
                    }
                    proof {
                        let rest = extract_go(s_cur.drop_first(), depth0 + paren_delta(t_v.token));
                        match rest.outcome {
                            ExtractOutcome::Done(ts) => {
                                assert(acc0 + (seq![t_v] + ts) =~= acc0.push(t_v) + ts);
                            },
                            ExtractOutcome::Failed(e) => {},
                            ExtractOutcome::Unbalanced(ts) => {
                                assert(acc0 + (seq![t_v] + ts) =~= acc0.push(t_v) + ts);
                            },
                        }
                    }
                },
            }
        }
    }

    /// Finds the end of the first balanced group in the window, as
    /// [`spec_group`] describes.
    fn slice_until_tokens_match(tokens_and_spans: &Vec<TokenAndSpan>, lo: usize, hi: usize) -> (r:
        Result<usize, ParseError>)
        requires
            lo <= hi <= tokens_and_spans@.len(),
        ensures
            group_result_view(r) == spec_group(spans_view(tokens_and_spans@), lo as int, hi as int),
    {
        let ghost ts = spans_view(tokens_and_spans@);
        let mut paren_count: usize = 0;
        let mut end_idx: usize = lo;
        while end_idx < hi
            invariant
                lo <= end_idx <= hi <= tokens_and_spans@.len(),
                ts == spans_view(tokens_and_spans@),
                paren_count <= end_idx - lo,
                scan_group(ts, lo as int, hi as int, 0) == scan_group(
                    ts,
                    end_idx as int,
                    hi as int,
                    paren_count as int,
                ),
            decreases hi - end_idx,
        {
            match &tokens_and_spans[end_idx].token {
                Token::OpenParen => {
                    paren_count = paren_count + 1;
                },
                Token::CloseParen => {
                    if paren_count == 0 {
                        return Err(ParseError::MismatchedParens(tokens_and_spans[end_idx].from));
                    } else if paren_count == 1 {
                        return Ok(end_idx + 1);
                    } else {
                        paren_count = paren_count - 1;
                    }
                },
                _ => {
                    if paren_count == 0 {
                        return Ok(end_idx + 1);
                    }
                },
            }
            end_idx = end_idx + 1;
        }
        if paren_count == 0 {
            Ok(hi)
        } else {
            Err(ParseError::MismatchedParens(tokens_and_spans[hi - 1].from))
        }
    }


    /// Reduces the `def` form that starts at `parsed`: the token after it
    /// must be an identifier and the rest of the window must reduce to
    /// exactly one expression; the result is the `__assign` application and
    /// the number of tokens walked.
    fn reduce_def(tokens_and_spans: &Vec<TokenAndSpan>, parsed: usize, hi: usize) -> (r: Result<
        (AST, usize),
        ParseError,
    >)
        requires
            parsed < hi <= tokens_and_spans@.len(),
            spans_view(tokens_and_spans@)[parsed as int].token is Def,
        ensures
            (match r {
                Ok(p) => spec_reduce(spans_view(tokens_and_spans@), parsed as int, hi as int)
                    == spec_reduce_step(
                    spans_view(tokens_and_spans@),
                    parsed as int,
                    hi as int,
                    ast_view(p.0),
                    p.1 as nat,
                ) && 1 <= p.1 && parsed + p.1 <= hi,
                Err(e) => spec_reduce(spans_view(tokens_and_spans@), parsed as int, hi as int)
                    == Err::<ReduceOk, SpecParseError>(e@),
            }),
        decreases hi - parsed, 0int,
    {
        let ghost ts = spans_view(tokens_and_spans@);
        if parsed + 1 >= hi {
            return Err(ParseError::UnexpectedEof(tokens_and_spans[parsed].from));
        }
        let next_is_identifier = matches!(&tokens_and_spans[parsed + 1].token, Token::Identifier(_));
        if !next_is_identifier {
            return Err(
                ParseError::UnexpectedTokenError {
                    expected: Some(Token::Identifier(String::from_str("_"))),
                    found: Some(tokens_and_spans[parsed + 1].token.duplicate()),
                    from: tokens_and_spans[parsed + 1].from,
                    to: tokens_and_spans[parsed + 1].to,
                },
            );
        }
        match Self::recursively_evaluate(tokens_and_spans, parsed + 2, hi) {
            Err(e) => Err(e),
            Ok((mut rhs, rec_parsed)) => {
                proof {
                    lemma_reduce_bounds(ts, parsed + 2, hi as int);
                    lemma_asts_view(rhs@);
                }
                if rhs.len() > 1 {
                    let second = rhs.remove(1);
                    return Err(
                        ParseError::UnexpectedExpressionError {
                            expected: None,
                            found: Some(second),
                            position: tokens_and_spans[parsed + 3].from,
                        },
                    );
                } else if rhs.len() == 0 {
                    return Err(
                        ParseError::UnexpectedExpressionError {
                            expected: None,
                            found: None,
                            position: tokens_and_spans[parsed + 1].from,
                        },
                    );
                }
                let rhs_node = rhs.remove(0);
                let name = match &tokens_and_spans[parsed + 1].token {
                    Token::Identifier(name) => name.clone(),
                    _ => String::new(),
                };
                let mut args: Vec<AST> = Vec::new();
                args.push(AST::VariableExpr(name));
                args.push(rhs_node);
                let node = AST::EvaluateExpr { callee: String::from_str("__assign"), args };
                proof {
                    match &node {
                        AST::EvaluateExpr { callee, args } => {
                            lemma_asts_view(args@);
                            assert(asts_view(args@) =~= seq![
                                ast_view(args@[0]),
                                ast_view(args@[1]),
                            ]);
                        },
                        _ => {},
                    }
                }
                Ok((node, 2 + rec_parsed))
            },
        }
    }

    /// Reduces the `fn` form that starts at `parsed`: a parenthesized list
    /// of identifiers, then a parenthesized body that must reduce to at
    /// least one statement (a body that is missing, unparenthesized, or
    /// empty is reported as a function without a body); the result is the
    /// function expression and the number of tokens walked.
    #[verifier::loop_isolation(false)]
    #[verifier::rlimit(50)]
    fn reduce_fn(tokens_and_spans: &Vec<TokenAndSpan>, parsed: usize, hi: usize) -> (r: Result<
        (AST, usize),
        ParseError,
    >)
        requires
            parsed < hi <= tokens_and_spans@.len(),
            spans_view(tokens_and_spans@)[parsed as int].token is Fn,
        ensures
            (match r {
                Ok(p) => spec_reduce(spans_view(tokens_and_spans@), parsed as int, hi as int)
                    == spec_reduce_step(
                    spans_view(tokens_and_spans@),
                    parsed as int,
                    hi as int,
                    ast_view(p.0),
                    p.1 as nat,
                ) && 1 <= p.1 && parsed + p.1 <= hi,
                Err(e) => spec_reduce(spans_view(tokens_and_spans@), parsed as int, hi as int)
                    == Err::<ReduceOk, SpecParseError>(e@),
            }),
        decreases hi - parsed, 0int,
    {
        let ghost ts = spans_view(tokens_and_spans@);
        if parsed + 1 >= hi {
            return Err(ParseError::UnexpectedEof(tokens_and_spans[parsed].from));
        }
        if !matches!(&tokens_and_spans[parsed + 1].token, Token::OpenParen) {
            return Err(
                ParseError::UnexpectedTokenError {
                    expected: Some(Token::OpenParen),
                    found: Some(tokens_and_spans[parsed + 1].token.duplicate()),
                    from: tokens_and_spans[parsed + 1].from,
                    to: tokens_and_spans[parsed + 1].to,
                },
            );
        }
        // parse the args within their brackets
        let param_bounds = match Self::find_tokens_within_brackets(
            tokens_and_spans,
            parsed + 1,
            hi,
        ) {
            Err(e) => {
                return Err(e);
            },
            Ok(p) => p,
        };
        let plo = param_bounds.0;
        let phi = param_bounds.1;
        let mut parameters: Vec<String> = Vec::new();
        let mut k = plo;
        while k < phi
            invariant
                plo <= k <= phi,
                phi < hi <= tokens_and_spans@.len(),
                ts == spans_view(tokens_and_spans@),
                (match params_of(ts, k as int, phi as int) {
                    Ok(ps) => params_of(ts, plo as int, phi as int) == Ok::<
                        Seq<Seq<char>>,
                        SpecParseError,
                    >(parameters@.map_values(|p: String| p@) + ps),
                    Err(e) => params_of(ts, plo as int, phi as int) == Err::<
                        Seq<Seq<char>>,
                        SpecParseError,
                    >(e),
                }),
            decreases phi - k,
        {
            match &tokens_and_spans[k].token {
                Token::Identifier(arg_name) => {
                    let ghost acc_ps = parameters@.map_values(|p: String| p@);
                    let ghost nm = arg_name@;
                    parameters.push(arg_name.clone());
                    proof {
                        match params_of(ts, k + 1, phi as int) {
                            Ok(ps) => {
                                assert(parameters@.map_values(|p: String| p@) =~= acc_ps.push(nm));
                                assert(acc_ps + (seq![nm] + ps) =~= acc_ps.push(nm) + ps);
                            },
                            Err(e) => {},
                        }
                    }
                    k = k + 1;
                },
                _ => {
                    return Err(
                        ParseError::UnexpectedTokenError {
                            expected: Some(Token::Identifier(String::from_str("_"))),
                            found: Some(tokens_and_spans[k].token.duplicate()),
                            from: tokens_and_spans[k].from,
                            to: tokens_and_spans[k].to,
                        },
                    );
                },
            }
        }
        // parse the body of the function
        let body_open = phi + 1;
        if body_open >= hi {
            return Err(ParseError::FunctionNeedsABody);
        }
        if !matches!(&tokens_and_spans[body_open].token, Token::OpenParen) {
            return Err(ParseError::FunctionNeedsABody);
        }
        let body_bounds = match Self::find_tokens_within_brackets(
            tokens_and_spans,
            body_open,
            hi,
        ) {
            Err(e) => {
                return Err(e);
            },
            Ok(p) => p,
        };
        match Self::recursively_evaluate(tokens_and_spans, body_bounds.0, body_bounds.1) {
            Err(e) => Err(e),
            Ok((statements, rec_parsed)) => {
                if rec_parsed == 0 {
                    return Err(ParseError::FunctionNeedsABody);
                }
                proof {
                    lemma_reduce_bounds(ts, body_bounds.0 as int, body_bounds.1 as int);
                }
                let node = AST::FunctionExpr { parameters, statements };
                proof {
                    assert(params_of(ts, phi as int, phi as int) == Ok::<
                        Seq<Seq<char>>,
                        SpecParseError,
                    >(Seq::empty()));
                    match &node {
                        AST::FunctionExpr { parameters, statements } => {
                            assert(parameters@.map_values(|p: String| p@) + Seq::<
                                Seq<char>,
                            >::empty() =~= parameters@.map_values(|p: String| p@));
                        },
                        _ => {},
                    }
                }
                Ok((node, body_open + 2 + rec_parsed - parsed))
            },
        }
    }

    /// Reduces the parenthesized form that starts at `parsed`: the rest of
    /// the window is reduced, and a leading variable is applied to the
    /// remaining nodes, or a lone application or function passes through.
    fn reduce_parenthesized(tokens_and_spans: &Vec<TokenAndSpan>, parsed: usize, hi: usize) -> (r:
        Result<(AST, usize), ParseError>)
        requires
            parsed < hi <= tokens_and_spans@.len(),
            spans_view(tokens_and_spans@)[parsed as int].token is OpenParen,
        ensures
            (match r {
                Ok(p) => spec_reduce(spans_view(tokens_and_spans@), parsed as int, hi as int)
                    == spec_reduce_step(
                    spans_view(tokens_and_spans@),
                    parsed as int,
                    hi as int,
                    ast_view(p.0),
                    p.1 as nat,
                ) && 1 <= p.1 && parsed + p.1 <= hi,
                Err(e) => spec_reduce(spans_view(tokens_and_spans@), parsed as int, hi as int)
                    == Err::<ReduceOk, SpecParseError>(e@),
            }),
        decreases hi - parsed, 0int,
    {
        let ghost ts = spans_view(tokens_and_spans@);
        match Self::recursively_evaluate(tokens_and_spans, parsed + 1, hi) {
            Err(e) => Err(e),
            Ok((mut stuff, rec_parsed)) => {
                proof {
                    lemma_reduce_bounds(ts, parsed + 1, hi as int);
                    lemma_asts_view(stuff@);
                }
                if stuff.len() >= 1 {
                    let ghost stuff0 = stuff@;
                    let ghost inner_nodes = asts_view(stuff@);
                    let first = stuff.remove(0);
                    proof {
                        assert(stuff@ =~= stuff0.drop_first());
                        lemma_asts_view(stuff@);
                        lemma_asts_view(stuff0);
                        assert(asts_view(stuff@) =~= inner_nodes.drop_first());
                    }
                    match first {
                        AST::VariableExpr(callee_name) => {
                            let node = AST::EvaluateExpr { callee: callee_name, args: stuff };
                            Ok((node, rec_parsed + 1))
                        },
                        first_node => {
                            let pass_through = stuff.len() == 0 && (matches!(
                                first_node,
                                AST::EvaluateExpr { .. }
                            ) || matches!(first_node, AST::FunctionExpr { .. }));
                            if pass_through {
                                Ok((first_node, rec_parsed + 1))
                            } else {
                                Err(
                                    ParseError::UnexpectedExpressionError {
                                        expected: Some(AST::VariableExpr(String::from_str("_"))),
                                        found: Some(first_node),
                                        position: tokens_and_spans[parsed + rec_parsed].from,
                                    },
                                )
                            }
                        },
                    }
                } else {
                    Err(
                        ParseError::UnexpectedExpressionError {
                            expected: Some(AST::VariableExpr(String::from_str("_"))),
                            found: None,
                            position: tokens_and_spans[parsed + rec_parsed].from,
                        },
                    )
                }
            },
        }
    }

    /// Reduces the token window `[lo, hi)` to a sequence of expressions, as
    /// [`spec_reduce`] describes, together with the number of tokens walked.
    #[verifier::loop_isolation(false)]
    #[verifier::rlimit(50)]
    fn recursively_evaluate(tokens_and_spans: &Vec<TokenAndSpan>, lo: usize, hi: usize) -> (r:
        Result<(Vec<AST>, usize), ParseError>)
        requires
            lo <= hi <= tokens_and_spans@.len(),
        ensures
            reduce_result_view(r) == spec_reduce(spans_view(tokens_and_spans@), lo as int, hi as int),
        decreases hi - lo, 1int,
    {
        let ghost ts = spans_view(tokens_and_spans@);
        let mut result: Vec<AST> = Vec::new();
        let mut parsed: usize = lo;
        loop
            invariant
                lo <= parsed <= hi,
                (match spec_reduce(ts, parsed as int, hi as int) {
                    Ok(rest) => spec_reduce(ts, lo as int, hi as int) == Ok::<
                        ReduceOk,
                        SpecParseError,
                    >(
                        ReduceOk {
                            nodes: asts_view(result@) + rest.nodes,
                            used: ((parsed - lo) + rest.used) as nat,
                        },
                    ),
                    Err(e) => spec_reduce(ts, lo as int, hi as int) == Err::<
                        ReduceOk,
                        SpecParseError,
                    >(e),
                }),
            decreases hi - parsed,
        {
            if parsed >= hi {
                proof {
                    assert(asts_view(result@) + Seq::<SpecAst>::empty() =~= asts_view(result@));
                }
                return Ok((result, parsed - lo));
            }
            let step_result: Result<(AST, usize), ParseError> = match &tokens_and_spans[parsed].token {
                Token::Number(val) => Ok((AST::NumberExpr(val.clone()), 1)),
                Token::Identifier(name) => Ok((AST::VariableExpr(name.clone()), 1)),
                Token::Def => Self::reduce_def(tokens_and_spans, parsed, hi),
                Token::Fn => Self::reduce_fn(tokens_and_spans, parsed, hi),
                Token::OpenParen => Self::reduce_parenthesized(tokens_and_spans, parsed, hi),
                // close paren tokens indicate we should go up one level, and so return
                Token::CloseParen => {
                    proof {
                        assert(asts_view(result@) + Seq::<SpecAst>::empty() =~= asts_view(
                            result@,
                        ));
                    }
                    return Ok((result, parsed - lo));
                },
                Token::Unknown(chr) => Err(
                    ParseError::UnexpectedTokenError {
                        expected: None,
                        found: Some(tokens_and_spans[parsed].token.duplicate()),
                        from: tokens_and_spans[parsed].from,
                        to: tokens_and_spans[parsed].to,
                    },
                ),
            };
            match step_result {
                Err(e) => {
                    return Err(e);
                },
                Ok((node, step)) => {
                    let ghost acc = asts_view(result@);
                    proof {
                        lemma_asts_view_push(result@, node);
                        lemma_step_advance(
                            ts,
                            lo as int,
                            hi as int,
                            parsed as int,
                            acc,
                            ast_view(node),
                            step as nat,
                        );
                    }
                    result.push(node);
                    parsed = parsed + step;
                },
            }
        }
    }

    /// Parses the next top-level form, as [`spec_next_expression`]
    /// describes: one balanced group is pulled off the stream and reduced to
    /// exactly one expression, `Ok(None)` reports a clean end of input, and
    /// an error is returned where the group cannot be extracted or reduced.
    pub fn next_expression(&mut self) -> (r: Result<Option<Box<AST>>, ParseError>)
        requires
            old(self).wf(),
        ensures
            final (self).wf(),
            parse_result_view(r) == spec_next_expression(old(self).stream()).result,
            final (self).stream() == old(self).stream().skip(
                spec_next_expression(old(self).stream()).used as int,
            ),
    {
        let tokens_and_spans = match Self::extract_until_brackets_match(&mut self.tokenizer) {
            Err(e) => {
                return Err(e);
            },
            Ok(v) => v,
        };
        if tokens_and_spans.len() == 0 {
            Ok(None)
        } else {
            let n = tokens_and_spans.len();
            match Self::recursively_evaluate(&tokens_and_spans, 0, n) {
                Err(e) => Err(e),
                Ok((mut asts, used)) => {
                    proof {
                        lemma_asts_view(asts@);
                    }
                    if asts.len() == 1 {
                        let ast = asts.remove(0);
                        Ok(Some(Box::new(ast)))
                    } else if asts.len() > 1 {
                        Err(
                            ParseError::UnknownError(
                                String::from_str(
                                    "Not sure how we got here, but we have multiple statements with the same open/close brackets",
                                ),
                            ),
                        )
                    } else {
                        Err(ParseError::UnknownError(String::from_str("Here we are but how")))
                    }
                },
            }
        }
    }

    /// The interior of the first balanced group in the window: the indices
    /// just inside its parentheses.
    fn find_tokens_within_brackets(tokens_and_spans: &Vec<TokenAndSpan>, lo: usize, hi: usize) -> (r:
        Result<(usize, usize), ParseError>)
        requires
            lo < hi <= tokens_and_spans@.len(),
            spans_view(tokens_and_spans@)[lo as int].token is OpenParen,
        ensures
            (match (r, spec_group(spans_view(tokens_and_spans@), lo as int, hi as int)) {
                (Ok(p), Ok(pe)) => p.0 == lo + 1 && p.1 == pe - 1 && lo + 2 <= pe <= hi,
                (Err(a), Err(b)) => a@ == b,
                _ => false,
            }),
    {
        proof {
            lemma_spec_group(spans_view(tokens_and_spans@), lo as int, hi as int);
        }
        match Self::slice_until_tokens_match(tokens_and_spans, lo, hi) {
            Ok(end) => Ok((lo + 1, end - 1)),
            Err(e) => Err(e),
        }
    }
}

} // verus!
