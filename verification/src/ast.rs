//! The abstract syntax tree of a parsed expression, and the engine entry
//! point that runs lexing, parsing and evaluation on one line of text.

use vstd::prelude::*;

use crate::eval::{evaluate, lemma_last_step_is_root, steps_of};
use crate::lexer::{lex, spec_lex, BinOp, TokenView};
use crate::parser::{parse, spec_parse};

verus! {

/// A parsed expression.  Every non-leaf node owns fully formed children; the
/// tree is immutable once built.
pub enum Expr {
    /// A variable leaf, with its case-sensitive identifier.
    Var(String),
    /// Negation of exactly one operand.
    Not(Box<Expr>),
    /// A binary connective applied to a left and a right operand.
    Binary(BinOp, Box<Expr>, Box<Expr>),
}

/// The mathematical value of an expression tree: the same shape, with
/// identifiers as character sequences.
pub enum SpecExpr {
    Var(Seq<char>),
    Not(Box<SpecExpr>),
    Binary(BinOp, Box<SpecExpr>, Box<SpecExpr>),
}

/// The mathematical value of an `Expr`.
pub open spec fn expr_view(e: Expr) -> SpecExpr
    decreases e,
{
    match e {
        Expr::Var(s) => SpecExpr::Var(s@),
        Expr::Not(inner) => SpecExpr::Not(Box::new(expr_view(*inner))),
        Expr::Binary(op, l, r) => SpecExpr::Binary(
            op,
            Box::new(expr_view(*l)),
            Box::new(expr_view(*r)),
        ),
    }
}

impl View for Expr {
    type V = SpecExpr;

    open spec fn view(&self) -> SpecExpr {
        expr_view(*self)
    }
}

impl DeepView for Expr {
    type V = SpecExpr;

    open spec fn deep_view(&self) -> SpecExpr {
        expr_view(*self)
    }
}

/// The number of `Variable` leaves of a tree.
pub open spec fn leaf_count(e: SpecExpr) -> nat
    decreases e,
{
    match e {
        SpecExpr::Var(_) => 1,
        SpecExpr::Not(x) => leaf_count(*x),
        SpecExpr::Binary(_, l, r) => leaf_count(*l) + leaf_count(*r),
    }
}

/// The number of internal (connective) nodes of a tree.
pub open spec fn internal_count(e: SpecExpr) -> nat
    decreases e,
{
    match e {
        SpecExpr::Var(_) => 0,
        SpecExpr::Not(x) => 1 + internal_count(*x),
        SpecExpr::Binary(_, l, r) => 1 + internal_count(*l) + internal_count(*r),
    }
}

/// A failure of the engine on one expression line.
#[derive(Debug)]
pub enum EvalError {
    /// An unrecognized character, at its character position in the line.
    Lexical { position: usize },
    /// The token sequence does not match the grammar; `position` is the token
    /// index at which parsing stopped.
    Syntax { position: usize },
}

/// The step trace the engine assigns to one line of text: `Some` exactly when
/// the line lexes and parses, and then the post-order step sequence of its
/// tree.
pub open spec fn spec_steps(s: Seq<char>) -> Option<Seq<Seq<char>>> {
    match spec_lex(s) {
        Ok(toks) => match spec_parse(toks) {
            Some(e) => Some(steps_of(e)),
            None => None,
        },
        Err(_) => None,
    }
}

/// Engine entry point: lex, parse and evaluate one expression line, returning
/// its ordered, non-empty derivation-step trace, or the first error.
pub fn evaluate_expression(expression: &str) -> (r: Result<Vec<String>, EvalError>)
    ensures
        r matches Ok(steps) ==> spec_steps(expression@) == Some(steps.deep_view())
            && steps@.len() > 0,
        r matches Err(err) ==> spec_steps(expression@) is None,
        r matches Err(EvalError::Lexical { position }) ==> spec_lex(expression@)
            == Err::<Seq<TokenView>, int>(position as int),
        r matches Err(EvalError::Syntax { position }) ==> (spec_lex(expression@) matches Ok(toks)
            && spec_parse(toks) is None),
        spec_steps(expression@) is Some ==> r is Ok,
{
    match lex(expression) {
        Ok(toks) => match parse(&toks) {
            Ok(e) => {
                let steps = evaluate(&e);
                proof {
                    lemma_last_step_is_root(e@);
                }
                Ok(steps)
            },
            Err(pos) => Err(EvalError::Syntax { position: pos }),
        },
        Err(pos) => Err(EvalError::Lexical { position: pos }),
    }
}

/// LAW (determinism): the step trace is a function of the expression text
/// alone, so any two successful evaluations of the same text yield the same
/// ordered step sequence.  Together with the contract of
/// `evaluate_expression`, which pins its result to `spec_steps`, this makes
/// re-evaluation reproducible.
pub proof fn lemma_evaluation_deterministic(
    s: Seq<char>,
    steps1: Seq<Seq<char>>,
    steps2: Seq<Seq<char>>,
)
    requires
        spec_steps(s) == Some(steps1),
        spec_steps(s) == Some(steps2),
    ensures
        steps1 == steps2,
{
}

} // verus!
