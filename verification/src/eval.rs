//! Semantic evaluation: a deterministic post-order walk of the tree that
//! appends one human-readable step per node — each variable leaf contributes
//! a step naming the variable, each connective node contributes exactly one
//! step naming the connective, emitted only after all of its children's
//! steps.  The mathematical model is `steps_of`; the executable evaluator is
//! proved to return exactly its result.

use vstd::prelude::*;

use crate::ast::{internal_count, leaf_count, Expr, SpecExpr};
use crate::lexer::BinOp;

verus! {

/// The keyword of a binary connective.
pub open spec fn op_name(op: BinOp) -> Seq<char> {
    match op {
        BinOp::And => "AND"@,
        BinOp::Or => "OR"@,
        BinOp::Implies => "IMPLIES"@,
        BinOp::Iff => "IFF"@,
        BinOp::Xor => "XOR"@,
    }
}

/// The step text for a variable leaf.
pub open spec fn var_step(name: Seq<char>) -> Seq<char> {
    "Evaluated variable "@ + name
}

/// The step text for a negation node.
pub open spec fn not_step() -> Seq<char> {
    "Applied NOT to the preceding result"@
}

/// The step text for a binary connective node.
pub open spec fn bin_step(op: BinOp) -> Seq<char> {
    "Combined the two preceding results with "@ + op_name(op)
}

/// The step text that belongs to the root node of a tree.
pub open spec fn root_step(e: SpecExpr) -> Seq<char> {
    match e {
        SpecExpr::Var(n) => var_step(n),
        SpecExpr::Not(_) => not_step(),
        SpecExpr::Binary(op, _, _) => bin_step(op),
    }
}

/// The ordered derivation-step trace of a tree: a strict post-order walk,
/// left child before right child, each node's own step after its children's.
pub open spec fn steps_of(e: SpecExpr) -> Seq<Seq<char>>
    decreases e,
{
    match e {
        SpecExpr::Var(n) => seq![var_step(n)],
        SpecExpr::Not(x) => steps_of(*x) + seq![not_step()],
        SpecExpr::Binary(op, l, r) => steps_of(*l) + steps_of(*r) + seq![bin_step(op)],
    }
}

/// LAW (post-order emission): every tree yields at least one step, and the
/// final step of the trace always pertains to the root node — its connective,
/// or the sole variable of a single-identifier expression.
pub proof fn lemma_last_step_is_root(e: SpecExpr)
    ensures
        steps_of(e).len() >= 1,
        steps_of(e).last() == root_step(e),
{
}

/// Pushing one string onto a vector appends its character sequence to the
/// vector's deep view.
pub proof fn lemma_deep_view_push(v1: Vec<String>, v2: Vec<String>)
    requires
        v2@.len() == v1@.len() + 1,
        forall|i: int| 0 <= i < v1@.len() ==> v2@[i] == v1@[i],
    ensures
        v2.deep_view() == v1.deep_view().push(v2@[v1@.len() as int]@),
{
    assert forall|i: int|
        0 <= i < v2.deep_view().len() implies v2.deep_view()[i] == v1.deep_view().push(
        v2@[v1@.len() as int]@,
    )[i] by {
        if i < v1@.len() {
            assert(v2@[i] == v1@[i]);
        }
    }
    assert(v2.deep_view() =~= v1.deep_view().push(v2@[v1@.len() as int]@));
}

/// LAW (one step per node): every variable leaf yields exactly one step
/// naming it and every connective node yields exactly one step naming the
/// connective, so the trace length is the leaf count plus the internal-node
/// count of the tree.
pub proof fn lemma_one_step_per_node(e: SpecExpr)
    ensures
        steps_of(e).len() == leaf_count(e) + internal_count(e),
    decreases e,
{
    match e {
        SpecExpr::Var(_) => {},
        SpecExpr::Not(x) => {
            lemma_one_step_per_node(*x);
        },
        SpecExpr::Binary(_, l, r) => {
            lemma_one_step_per_node(*l);
            lemma_one_step_per_node(*r);
        },
    }
}

fn op_name_exec(op: &BinOp) -> (r: &'static str)
    ensures
        r@ == op_name(*op),
{
    match op {
        BinOp::And => "AND",
        BinOp::Or => "OR",
        BinOp::Implies => "IMPLIES",
        BinOp::Iff => "IFF",
        BinOp::Xor => "XOR",
    }
}

/// Append the steps of `e`, in post order, to `out`.
fn push_steps(e: &Expr, out: &mut Vec<String>)
    ensures
        final(out).deep_view() == old(out).deep_view() + steps_of(e@),
    decreases e,
{
    match e {
        Expr::Var(name) => {
            let mut s = String::from_str("Evaluated variable ");
            s.append(name.as_str());
            let ghost prev = *out;
            out.push(s);
            proof {
                lemma_deep_view_push(prev, *out);
                assert(out.deep_view() =~= old(out).deep_view() + steps_of(e@));
            }
        },
        Expr::Not(inner) => {
            push_steps(&**inner, out);
            let ghost prev = *out;
            out.push(String::from_str("Applied NOT to the preceding result"));
            proof {
                lemma_deep_view_push(prev, *out);
                assert(out.deep_view() =~= old(out).deep_view() + steps_of(e@));
            }
        },
        Expr::Binary(op, l, r) => {
            push_steps(&**l, out);
            push_steps(&**r, out);
            let mut s = String::from_str("Combined the two preceding results with ");
            s.append(op_name_exec(op));
            let ghost prev = *out;
            out.push(s);
            proof {
                lemma_deep_view_push(prev, *out);
                assert(out.deep_view() =~= old(out).deep_view() + steps_of(e@));
            }
        },
    }
}

/// Evaluate a tree: its full derivation-step trace, exactly as `steps_of`
/// describes it.
pub fn evaluate(e: &Expr) -> (steps: Vec<String>)
    ensures
        steps.deep_view() == steps_of(e@),
{
    let mut out: Vec<String> = Vec::new();
    push_steps(e, &mut out);
    proof {
        assert(out.deep_view() =~= steps_of(e@));
    }
    out
}

} // verus!
