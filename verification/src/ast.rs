//! The abstract syntax tree shared by the parser and its callers.
use vstd::prelude::*;

verus! {

/// One expression. Numeric literals keep their source text; the value they
/// denote is left to the consumer. `EvaluateExpr` applies a named operation
/// to argument expressions (the built-in assignment form uses the callee
/// `__assign`); `FunctionExpr` is an anonymous function with its parameter
/// names and body statements; `ListExpr` is a literal list, reserved for
/// future quoting support.
#[derive(Debug, PartialEq)]
pub enum AST {
    NumberExpr(String),
    VariableExpr(String),
    EvaluateExpr { callee: String, args: Vec<AST> },
    FunctionExpr { parameters: Vec<String>, statements: Vec<AST> },
    ListExpr(Vec<AST>),
}

/// The mathematical shape of an expression tree: text as character
/// sequences, children as sequences.
pub ghost enum SpecAst {
    NumberExpr(Seq<char>),
    VariableExpr(Seq<char>),
    EvaluateExpr { callee: Seq<char>, args: Seq<SpecAst> },
    FunctionExpr { parameters: Seq<Seq<char>>, statements: Seq<SpecAst> },
    ListExpr(Seq<SpecAst>),
}

/// The shape of an expression tree, node by node.
pub open spec fn ast_view(a: AST) -> SpecAst
    decreases a,
    via ast_view_decreases
{
    match a {
        AST::NumberExpr(s) => SpecAst::NumberExpr(s@),
        AST::VariableExpr(s) => SpecAst::VariableExpr(s@),
        AST::EvaluateExpr { callee, args } => SpecAst::EvaluateExpr {
            callee: callee@,
            args: asts_view(args@),
        },
        AST::FunctionExpr { parameters, statements } => SpecAst::FunctionExpr {
            parameters: parameters@.map_values(|p: String| p@),
            statements: asts_view(statements@),
        },
        AST::ListExpr(items) => SpecAst::ListExpr(asts_view(items@)),
    }
}

/// The shapes of a sequence of expression trees, in order.
pub open spec fn asts_view(v: Seq<AST>) -> Seq<SpecAst>
    decreases v,
{
    if v.len() <= 0 {
        Seq::empty()
    } else {
        seq![ast_view(v[0])] + asts_view(v.drop_first())
    }
}

#[via_fn]
proof fn ast_view_decreases(a: AST) {
    match a {
        AST::EvaluateExpr { callee, args } => {
            assert(decreases_to!(a => args));
            assert(decreases_to!(args => args@));
        },
        AST::FunctionExpr { parameters, statements } => {
            assert(decreases_to!(a => statements));
            assert(decreases_to!(statements => statements@));
        },
        AST::ListExpr(items) => {
            assert(decreases_to!(a => items));
            assert(decreases_to!(items => items@));
        },
        _ => {},
    }
}

/// A sequence of trees is viewed element by element.
pub proof fn lemma_asts_view(v: Seq<AST>)
    ensures
        asts_view(v).len() == v.len(),
        forall|i: int| 0 <= i < v.len() ==> asts_view(v)[i] == ast_view(v[i]),
    decreases v.len(),
{
    if v.len() > 0 {
        lemma_asts_view(v.drop_first());
        assert forall|i: int| 0 <= i < v.len() implies asts_view(v)[i] == ast_view(v[i]) by {
            if i > 0 {
                assert(asts_view(v)[i] == asts_view(v.drop_first())[i - 1]);
                assert(v.drop_first()[i - 1] == v[i]);
            }
        }
    }
}

/// Appending one tree appends its view.
pub proof fn lemma_asts_view_push(v: Seq<AST>, x: AST)
    ensures
        asts_view(v.push(x)) == asts_view(v).push(ast_view(x)),
{
    lemma_asts_view(v.push(x));
    lemma_asts_view(v);
    assert(asts_view(v.push(x)) =~= asts_view(v).push(ast_view(x)));
}


/// Every variable name and every callee in a tree is non-empty.
pub open spec fn spec_ast_names_nonempty(a: SpecAst) -> bool
    decreases a, 0int,
{
    match a {
        SpecAst::NumberExpr(text) => true,
        SpecAst::VariableExpr(name) => name.len() > 0,
        SpecAst::EvaluateExpr { callee, args } => callee.len() > 0 && spec_asts_names_nonempty(
            args,
        ),
        SpecAst::FunctionExpr { parameters, statements } => spec_asts_names_nonempty(statements),
        SpecAst::ListExpr(items) => spec_asts_names_nonempty(items),
    }
}

/// Every variable name and every callee in a sequence of trees is non-empty.
pub open spec fn spec_asts_names_nonempty(v: Seq<SpecAst>) -> bool
    decreases v, 1int,
{
    if v.len() <= 0 {
        true
    } else {
        spec_ast_names_nonempty(v[0]) && spec_asts_names_nonempty(v.drop_first())
    }
}

/// A sequence of trees has non-empty names exactly when each tree does.
pub proof fn lemma_asts_names_nonempty_index(v: Seq<SpecAst>)
    requires
        spec_asts_names_nonempty(v),
    ensures
        forall|i: int| 0 <= i < v.len() ==> spec_ast_names_nonempty(v[i]),
    decreases v.len(),
{
    if v.len() > 0 {
        lemma_asts_names_nonempty_index(v.drop_first());
        assert forall|i: int| 0 <= i < v.len() implies spec_ast_names_nonempty(v[i]) by {
            if i > 0 {
                assert(v.drop_first()[i - 1] == v[i]);
            }
        }
    }
}

pub proof fn lemma_asts_names_nonempty_build(v: Seq<SpecAst>)
    requires
        forall|i: int| 0 <= i < v.len() ==> spec_ast_names_nonempty(v[i]),
    ensures
        spec_asts_names_nonempty(v),
    decreases v.len(),
{
    if v.len() > 0 {
        assert forall|i: int| 0 <= i < v.drop_first().len() implies spec_ast_names_nonempty(
            v.drop_first()[i],
        ) by {
            assert(v.drop_first()[i] == v[i + 1]);
        }
        lemma_asts_names_nonempty_build(v.drop_first());
    }
}

impl View for AST {
    type V = SpecAst;

    open spec fn view(&self) -> SpecAst {
        ast_view(*self)
    }
}

} // verus!
