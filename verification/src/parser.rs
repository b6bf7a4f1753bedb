//! Parsing: the token sequence of one expression becomes an abstract syntax
//! tree honouring connective precedence and associativity.
//!
//! Grammar, precedence low to high, all binary connectives left-associative,
//! `NOT` a right-associative prefix:
//!
//! ```text
//! expr    := iff
//! iff     := implies ( (IFF | XOR) implies )*
//! implies := or ( IMPLIES or )*
//! or      := and ( OR and )*
//! and     := not ( AND not )*
//! not     := NOT not | atom
//! atom    := IDENTIFIER | '(' expr ')'
//! ```
//!
//! The four binary levels share one shape, so they are modelled as one
//! function over a precedence level: level 1 is `and`, 2 is `or`, 3 is
//! `implies`, 4 is `iff`.  The mathematical model is `spec_parse`, a
//! deterministic recursive descent over the token sequence; the executable
//! parser is proved to return exactly its result.  Parsing is fail-fast: the
//! first offending token ends it, and no partial tree is ever returned.

use vstd::prelude::*;

use crate::ast::{expr_view, internal_count, leaf_count, Expr, SpecExpr};
use crate::lexer::{BinOp, Token, TokenView};

verus! {

/// Whether `op` is parsed at precedence `level`.
pub open spec fn level_op(level: int, op: BinOp) -> bool {
    if level == 1 {
        op == BinOp::And
    } else if level == 2 {
        op == BinOp::Or
    } else if level == 3 {
        op == BinOp::Implies
    } else {
        op == BinOp::Iff || op == BinOp::Xor
    }
}

/// The mathematical `atom` production at token index `i`: the parsed tree and
/// the index just past it, or `None` on failure.
pub open spec fn spec_atom(t: Seq<TokenView>, i: int) -> Option<(SpecExpr, int)>
    decreases t.len() - i, 0int when 0 <= i <= t.len()
{
    if i < t.len() {
        match t[i] {
            TokenView::Var(name) => Some((SpecExpr::Var(name), i + 1)),
            TokenView::LParen => match spec_level(t, i + 1, 4) {
                Some((e, j)) => if j < t.len() && t[j] == TokenView::RParen {
                    Some((e, j + 1))
                } else {
                    None
                },
                None => None,
            },
            _ => None,
        }
    } else {
        None
    }
}

/// The mathematical `not` production.
pub open spec fn spec_not(t: Seq<TokenView>, i: int) -> Option<(SpecExpr, int)>
    decreases t.len() - i, 1int when 0 <= i <= t.len()
{
    if i < t.len() && t[i] == TokenView::Not {
        match spec_not(t, i + 1) {
            Some((e, j)) => Some((SpecExpr::Not(Box::new(e)), j)),
            None => None,
        }
    } else {
        spec_atom(t, i)
    }
}

/// The mathematical binary production at precedence `level`: one operand of
/// the next-higher precedence, then `spec_level_tail` for the left-associative
/// chain of `level` connectives.
pub open spec fn spec_level(t: Seq<TokenView>, i: int, level: int) -> Option<(SpecExpr, int)>
    decreases t.len() - i, 2 * level + 1 when 0 <= i <= t.len() && 1 <= level <= 4
{
    match (if level == 1 {
        spec_not(t, i)
    } else {
        spec_level(t, i, level - 1)
    }) {
        // The position bound keeps the recursion well-founded; the position
        // lemmas show a successful operand always satisfies it.
        Some((e, j)) => if i <= j && j <= t.len() {
            spec_level_tail(t, e, j, level)
        } else {
            None
        },
        None => None,
    }
}

/// The chain `( OP operand )*` at precedence `level`, folded left onto `acc`.
pub open spec fn spec_level_tail(t: Seq<TokenView>, acc: SpecExpr, i: int, level: int) -> Option<
    (SpecExpr, int),
>
    decreases t.len() - i, 2 * level when 0 <= i <= t.len() && 1 <= level <= 4
{
    if i < t.len() {
        match t[i] {
            TokenView::Op(op) => if level_op(level, op) {
                match (if level == 1 {
                    spec_not(t, i + 1)
                } else {
                    spec_level(t, i + 1, level - 1)
                }) {
                    // As in `spec_level`, the position bound only keeps the
                    // recursion well-founded.
                    Some((r, k)) => if i + 1 <= k && k <= t.len() {
                        spec_level_tail(
                            t,
                            SpecExpr::Binary(op, Box::new(acc), Box::new(r)),
                            k,
                            level,
                        )
                    } else {
                        None
                    },
                    None => None,
                }
            } else {
                Some((acc, i))
            },
            _ => Some((acc, i)),
        }
    } else {
        Some((acc, i))
    }
}

/// The mathematical parser for a whole token sequence: the tree of the `expr`
/// production, provided it consumes every token; `None` on any failure,
/// including an empty sequence and trailing tokens.
pub open spec fn spec_parse(t: Seq<TokenView>) -> Option<SpecExpr> {
    match spec_level(t, 0, 4) {
        Some((e, j)) => if j == t.len() {
            Some(e)
        } else {
            None
        },
        None => None,
    }
}

/// The number of variable tokens in a sequence.
pub open spec fn var_token_count(t: Seq<TokenView>) -> nat
    decreases t.len(),
{
    if t.len() == 0 {
        0
    } else {
        (if t[0] is Var {
            1nat
        } else {
            0nat
        }) + var_token_count(t.drop_first())
    }
}

/// The number of connective tokens (binary connectives and `NOT`) in a
/// sequence.
pub open spec fn conn_token_count(t: Seq<TokenView>) -> nat
    decreases t.len(),
{
    if t.len() == 0 {
        0
    } else {
        (if t[0] is Op || t[0] is Not {
            1nat
        } else {
            0nat
        }) + conn_token_count(t.drop_first())
    }
}

proof fn lemma_counts_concat(a: Seq<TokenView>, b: Seq<TokenView>)
    ensures
        var_token_count(a + b) == var_token_count(a) + var_token_count(b),
        conn_token_count(a + b) == conn_token_count(a) + conn_token_count(b),
    decreases a.len(),
{
    if a.len() == 0 {
        assert(a + b =~= b);
    } else {
        assert((a + b).drop_first() =~= a.drop_first() + b);
        lemma_counts_concat(a.drop_first(), b);
    }
}

proof fn lemma_count_singleton(v: TokenView)
    ensures
        var_token_count(seq![v]) == (if v is Var {
            1nat
        } else {
            0nat
        }),
        conn_token_count(seq![v]) == (if v is Op || v is Not {
            1nat
        } else {
            0nat
        }),
{
    assert(seq![v][0] == v);
    assert(seq![v].drop_first() =~= Seq::<TokenView>::empty());
    assert(var_token_count(seq![v]) == (if seq![v][0] is Var { 1nat } else { 0nat })
        + var_token_count(seq![v].drop_first()));
    assert(conn_token_count(seq![v]) == (if seq![v][0] is Op || seq![v][0] is Not { 1nat } else { 0nat })
        + conn_token_count(seq![v].drop_first()));
}

/// On success, `spec_atom` moves strictly forward, stays in bounds, and its
/// tree's leaf and internal-node counts equal the variable-token and
/// connective-token counts of the tokens it consumed.
proof fn lemma_atom_props(t: Seq<TokenView>, i: int)
    requires
        0 <= i <= t.len(),
    ensures
        spec_atom(t, i) matches Some((e, j)) ==> i < j <= t.len() && leaf_count(e)
            == var_token_count(t.subrange(i, j)) && internal_count(e) == conn_token_count(
            t.subrange(i, j),
        ),
    decreases t.len() - i, 0int,
{
    if i < t.len() {
        match t[i] {
            TokenView::Var(name) => {
                assert(t.subrange(i, i + 1) =~= seq![t[i]]);
                lemma_count_singleton(t[i]);
            },
            TokenView::LParen => {
                lemma_level_props(t, i + 1, 4);
                if let Some((e, j)) = spec_level(t, i + 1, 4) {
                    if j < t.len() && t[j] == TokenView::RParen {
                        assert(t.subrange(i, j + 1) =~= (seq![t[i]] + t.subrange(i + 1, j))
                            + seq![t[j]]);
                        lemma_counts_concat(seq![t[i]] + t.subrange(i + 1, j), seq![t[j]]);
                        lemma_counts_concat(seq![t[i]], t.subrange(i + 1, j));
                        lemma_count_singleton(t[i]);
                        lemma_count_singleton(t[j]);
                    }
                }
            },
            _ => {},
        }
    }
}

/// As `lemma_atom_props`, for the `not` production.
proof fn lemma_not_props(t: Seq<TokenView>, i: int)
    requires
        0 <= i <= t.len(),
    ensures
        spec_not(t, i) matches Some((e, j)) ==> i < j <= t.len() && leaf_count(e)
            == var_token_count(t.subrange(i, j)) && internal_count(e) == conn_token_count(
            t.subrange(i, j),
        ),
    decreases t.len() - i, 1int,
{
    if i < t.len() && t[i] == TokenView::Not {
        lemma_not_props(t, i + 1);
        if let Some((e, j)) = spec_not(t, i + 1) {
            assert(t.subrange(i, j) =~= seq![t[i]] + t.subrange(i + 1, j));
            lemma_counts_concat(seq![t[i]], t.subrange(i + 1, j));
            lemma_count_singleton(t[i]);
        }
    } else {
        lemma_atom_props(t, i);
    }
}

/// As `lemma_atom_props`, for a binary precedence level.
proof fn lemma_level_props(t: Seq<TokenView>, i: int, level: int)
    requires
        0 <= i <= t.len(),
        1 <= level <= 4,
    ensures
        spec_level(t, i, level) matches Some((e, j)) ==> i < j <= t.len() && leaf_count(e)
            == var_token_count(t.subrange(i, j)) && internal_count(e) == conn_token_count(
            t.subrange(i, j),
        ),
    decreases t.len() - i, 2 * level + 1,
{
    if level == 1 {
        lemma_not_props(t, i);
    } else {
        lemma_level_props(t, i, level - 1);
    }
    let sub = if level == 1 {
        spec_not(t, i)
    } else {
        spec_level(t, i, level - 1)
    };
    if let Some((e0, j0)) = sub {
        lemma_level_tail_props(t, e0, j0, level);
        if let Some((e, j)) = spec_level_tail(t, e0, j0, level) {
            assert(t.subrange(i, j) =~= t.subrange(i, j0) + t.subrange(j0, j));
            lemma_counts_concat(t.subrange(i, j0), t.subrange(j0, j));
        }
    }
}

/// As `lemma_atom_props`, for the left-folded connective chain: the counts of
/// the result are those of the accumulator plus those of the consumed tokens.
proof fn lemma_level_tail_props(t: Seq<TokenView>, acc: SpecExpr, i: int, level: int)
    requires
        0 <= i <= t.len(),
        1 <= level <= 4,
    ensures
        spec_level_tail(t, acc, i, level) matches Some((e, j)) ==> i <= j <= t.len() && leaf_count(
            e,
        ) == leaf_count(acc) + var_token_count(t.subrange(i, j)) && internal_count(e)
            == internal_count(acc) + conn_token_count(t.subrange(i, j)),
    decreases t.len() - i, 2 * level,
{
    if i < t.len() {
        match t[i] {
            TokenView::Op(op) => if level_op(level, op) {
                if level == 1 {
                    lemma_not_props(t, i + 1);
                } else {
                    lemma_level_props(t, i + 1, level - 1);
                }
                let sub = if level == 1 {
                    spec_not(t, i + 1)
                } else {
                    spec_level(t, i + 1, level - 1)
                };
                if let Some((r, k)) = sub {
                    let acc2 = SpecExpr::Binary(op, Box::new(acc), Box::new(r));
                    lemma_level_tail_props(t, acc2, k, level);
                    if let Some((e, j)) = spec_level_tail(t, acc2, k, level) {
                        assert(t.subrange(i, j) =~= (seq![t[i]] + t.subrange(i + 1, k))
                            + t.subrange(k, j));
                        lemma_counts_concat(seq![t[i]] + t.subrange(i + 1, k), t.subrange(k, j));
                        lemma_counts_concat(seq![t[i]], t.subrange(i + 1, k));
                        lemma_count_singleton(t[i]);
                    }
                }
            } else {
                assert(t.subrange(i, i) =~= Seq::<TokenView>::empty());
            },
            _ => {
                assert(t.subrange(i, i) =~= Seq::<TokenView>::empty());
            },
        }
    } else {
        assert(t.subrange(i, i) =~= Seq::<TokenView>::empty());
    }
}

/// LAW (token conservation): whenever parsing succeeds, the tree's leaf count
/// equals the number of variable tokens of the sequence, and its
/// internal-node count equals the number of connective tokens — every token
/// is consumed and accounted for.
pub proof fn lemma_parse_counts(t: Seq<TokenView>, e: SpecExpr)
    requires
        spec_parse(t) == Some(e),
    ensures
        leaf_count(e) == var_token_count(t),
        internal_count(e) == conn_token_count(t),
{
    lemma_level_props(t, 0, 4);
    assert(t.subrange(0, t.len() as int) =~= t);
}

/// The canonical, fully parenthesized token rendering of a tree.
pub open spec fn tokens_of(e: SpecExpr) -> Seq<TokenView>
    decreases e,
{
    match e {
        SpecExpr::Var(n) => seq![TokenView::Var(n)],
        SpecExpr::Not(x) => seq![TokenView::Not] + tokens_of(*x),
        SpecExpr::Binary(op, l, r) => seq![TokenView::LParen] + tokens_of(*l) + seq![
            TokenView::Op(op),
        ] + tokens_of(*r) + seq![TokenView::RParen],
    }
}

/// The precedence level at which a binary connective is parsed.
pub open spec fn level_of(op: BinOp) -> int {
    match op {
        BinOp::And => 1,
        BinOp::Or => 2,
        BinOp::Implies => 3,
        BinOp::Iff => 4,
        BinOp::Xor => 4,
    }
}

proof fn lemma_level_op_iff(level: int, op: BinOp)
    requires
        1 <= level <= 4,
    ensures
        level_op(level, op) == (level_of(op) == level),
{
}

/// The number of nodes of a tree; the induction measure of the completeness
/// lemmas.
spec fn size_of(e: SpecExpr) -> nat
    decreases e,
{
    match e {
        SpecExpr::Var(_) => 1,
        SpecExpr::Not(x) => 1 + size_of(*x),
        SpecExpr::Binary(_, l, r) => 1 + size_of(*l) + size_of(*r),
    }
}

/// Position `j` does not hold a connective of precedence `level` or below, so
/// every chain at those levels stops there.
spec fn no_op_at_or_below(t: Seq<TokenView>, j: int, level: int) -> bool {
    j >= t.len() || (match t[j] {
        TokenView::Op(o) => level_of(o) > level,
        _ => true,
    })
}

/// The `not` production parses a canonical rendering embedded at `i` back to
/// exactly the rendered tree, whatever follows it.
proof fn lemma_np_complete(e: SpecExpr, t: Seq<TokenView>, i: int)
    requires
        0 <= i,
        i + tokens_of(e).len() <= t.len(),
        t.subrange(i, i + tokens_of(e).len()) == tokens_of(e),
    ensures
        spec_not(t, i) == Some((e, i + tokens_of(e).len())),
    decreases size_of(e), 5int,
{
    let toks = tokens_of(e);
    let len = toks.len() as int;
    assert forall|m: int| 0 <= m < len implies t[i + m] == #[trigger] toks[m] by {
        assert(t.subrange(i, i + len)[m] == toks[m]);
    }
    match e {
        SpecExpr::Var(n) => {
            assert(seq![TokenView::Var(n)][0] == TokenView::Var(n));
            assert(t[i] == TokenView::Var(n));
        },
        SpecExpr::Not(x) => {
            let tx = tokens_of(*x);
            assert(t[i] == TokenView::Not) by {
                assert(toks[0] == seq![TokenView::Not][0]);
            }
            assert forall|m: int| 0 <= m < tx.len() implies t.subrange(i + 1, i + 1 + tx.len())[m]
                == tx[m] by {
                assert(toks[1 + m] == tx[m]);
                assert(t[i + 1 + m] == toks[1 + m]);
            }
            assert(t.subrange(i + 1, i + 1 + tx.len()) =~= tx);
            lemma_np_complete(*x, t, i + 1);
        },
        SpecExpr::Binary(op, l, r) => {
            let tl = tokens_of(*l);
            let tr = tokens_of(*r);
            let p1 = i + 1;
            let p2 = p1 + tl.len();
            let p3 = p2 + 1;
            let end = p3 + tr.len();
            let s1: Seq<TokenView> = seq![TokenView::LParen];
            let s2: Seq<TokenView> = seq![TokenView::Op(op)];
            let s3: Seq<TokenView> = seq![TokenView::RParen];
            let a1 = s1 + tl;
            let a2 = a1 + s2;
            let a3 = a2 + tr;
            assert(toks == a3 + s3);
            assert(t[i] == TokenView::LParen) by {
                assert(toks[0] == a3[0]);
                assert(a3[0] == a2[0]);
                assert(a2[0] == a1[0]);
                assert(a1[0] == s1[0]);
            }
            assert forall|m: int| 0 <= m < tl.len() implies t.subrange(p1, p2)[m] == tl[m] by {
                assert(a1[1 + m] == tl[m]);
                assert(a2[1 + m] == a1[1 + m]);
                assert(a3[1 + m] == a2[1 + m]);
                assert(toks[1 + m] == a3[1 + m]);
                assert(t[p1 + m] == toks[1 + m]);
            }
            assert(t.subrange(p1, p2) =~= tl);
            assert(t[p2] == TokenView::Op(op)) by {
                assert(toks[1 + tl.len() as int] == a3[1 + tl.len() as int]);
                assert(a3[1 + tl.len() as int] == a2[1 + tl.len() as int]);
                assert(a2[1 + tl.len() as int] == s2[0]);
            }
            assert forall|m: int| 0 <= m < tr.len() implies t.subrange(p3, end)[m] == tr[m] by {
                assert(a3[2 + tl.len() + m] == tr[m]);
                assert(toks[2 + tl.len() + m] == a3[2 + tl.len() + m]);
                assert(t[p3 + m] == toks[2 + tl.len() + m]);
            }
            assert(t.subrange(p3, end) =~= tr);
            assert(t[end] == TokenView::RParen) by {
                assert(toks[2 + tl.len() + tr.len() as int] == s3[0]);
            }
            lemma_chain_complete(op, *l, *r, t, p1, 4);
            assert(spec_atom(t, i) == Some((e, i + len)));
            assert(t[i] != TokenView::Not);
        },
    }
}

/// A canonical rendering embedded at `i` passes unchanged through every
/// binary precedence level whose connectives do not continue it.
proof fn lemma_operand_complete(e: SpecExpr, t: Seq<TokenView>, i: int, level: int)
    requires
        0 <= i,
        i + tokens_of(e).len() <= t.len(),
        t.subrange(i, i + tokens_of(e).len()) == tokens_of(e),
        1 <= level <= 4,
        no_op_at_or_below(t, i + tokens_of(e).len(), level),
    ensures
        spec_level(t, i, level) == Some((e, i + tokens_of(e).len())),
    decreases size_of(e), 6 + level,
{
    let end = i + tokens_of(e).len();
    if level == 1 {
        lemma_np_complete(e, t, i);
    } else {
        lemma_operand_complete(e, t, i, level - 1);
    }
    if end < t.len() {
        if let TokenView::Op(o) = t[end] {
            lemma_level_op_iff(level, o);
        }
    }
    assert(spec_level_tail(t, e, end, level) == Some((e, end)));
}

/// One left-associative chain `l OP r`, rendered canonically and embedded at
/// `i`, parses at every level from `OP`'s own upward to exactly the
/// corresponding tree.
proof fn lemma_chain_complete(op: BinOp, l: SpecExpr, r: SpecExpr, t: Seq<TokenView>, i: int, level: int)
    requires
        0 <= i,
        i + tokens_of(l).len() + 1 + tokens_of(r).len() <= t.len(),
        t.subrange(i, i + tokens_of(l).len()) == tokens_of(l),
        t[i + tokens_of(l).len()] == TokenView::Op(op),
        t.subrange(
            i + tokens_of(l).len() + 1,
            i + tokens_of(l).len() + 1 + tokens_of(r).len(),
        ) == tokens_of(r),
        level_of(op) <= level <= 4,
        no_op_at_or_below(t, i + tokens_of(l).len() + 1 + tokens_of(r).len(), level),
    ensures
        spec_level(t, i, level) == Some(
            (
                SpecExpr::Binary(op, Box::new(l), Box::new(r)),
                i + tokens_of(l).len() + 1 + tokens_of(r).len(),
            ),
        ),
    decreases 1 + size_of(l) + size_of(r), level,
{
    let v = level_of(op);
    let mid = i + tokens_of(l).len();
    let end = mid + 1 + tokens_of(r).len();
    let folded = SpecExpr::Binary(op, Box::new(l), Box::new(r));
    if level > v {
        lemma_chain_complete(op, l, r, t, i, level - 1);
        if end < t.len() {
            if let TokenView::Op(o) = t[end] {
                lemma_level_op_iff(level, o);
            }
        }
        assert(spec_level_tail(t, folded, end, level) == Some((folded, end)));
    } else {
        // level == v: the operand below v stops at OP, the chain at v consumes
        // it, parses the right operand, and stops at `end`.
        lemma_level_op_iff(v, op);
        if v == 1 {
            lemma_np_complete(l, t, i);
        } else {
            lemma_operand_complete(l, t, i, v - 1);
        }
        if v == 1 {
            lemma_np_complete(r, t, mid + 1);
        } else {
            lemma_operand_complete(r, t, mid + 1, v - 1);
        }
        if end < t.len() {
            if let TokenView::Op(o) = t[end] {
                lemma_level_op_iff(v, o);
            }
        }
        assert(spec_level_tail(t, folded, end, v) == Some((folded, end)));
        assert(spec_level_tail(t, l, mid, v) == Some((folded, end)));
    }
}

/// LAW (grammar completeness, round trip): the canonical fully parenthesized
/// rendering of any tree is a valid token sequence, and parsing it succeeds
/// and returns exactly that tree — so for every expressible tree there is a
/// token sequence the parser accepts, and acceptance is never lost to the
/// precedence or associativity rules.
pub proof fn lemma_parse_complete(e: SpecExpr)
    ensures
        spec_parse(tokens_of(e)) == Some(e),
{
    let t = tokens_of(e);
    assert(t.subrange(0, t.len() as int) =~= t);
    lemma_operand_complete(e, t, 0, 4);
}

fn level_op_exec(level: usize, op: &BinOp) -> (b: bool)
    ensures
        b == level_op(level as int, *op),
{
    if level == 1 {
        matches!(op, BinOp::And)
    } else if level == 2 {
        matches!(op, BinOp::Or)
    } else if level == 3 {
        matches!(op, BinOp::Implies)
    } else {
        matches!(op, BinOp::Iff) || matches!(op, BinOp::Xor)
    }
}

/// The `atom` production: a variable, or a parenthesized expression.
fn parse_atom(t: &Vec<Token>, i: usize) -> (r: Result<(Expr, usize), usize>)
    requires
        i <= t@.len(),
    ensures
        r matches Ok(p) ==> spec_atom(t.deep_view(), i as int) == Some((p.0@, p.1 as int))
            && i < p.1 <= t@.len(),
        r matches Err(pos) ==> spec_atom(t.deep_view(), i as int) is None && pos <= t@.len(),
    decreases t@.len() - i, 0int,
{
    if i < t.len() {
        match &t[i] {
            Token::Var(name) => Ok((Expr::Var(name.clone()), i + 1)),
            Token::LParen => match parse_level(t, i + 1, 4) {
                Ok((e, j)) => {
                    if j < t.len() && matches!(&t[j], Token::RParen) {
                        Ok((e, j + 1))
                    } else {
                        Err(j)
                    }
                },
                Err(p) => Err(p),
            },
            _ => Err(i),
        }
    } else {
        Err(i)
    }
}

/// The `not` production: any number of `NOT` prefixes, then an atom.
fn parse_not(t: &Vec<Token>, i: usize) -> (r: Result<(Expr, usize), usize>)
    requires
        i <= t@.len(),
    ensures
        r matches Ok(p) ==> spec_not(t.deep_view(), i as int) == Some((p.0@, p.1 as int))
            && i < p.1 <= t@.len(),
        r matches Err(pos) ==> spec_not(t.deep_view(), i as int) is None && pos <= t@.len(),
    decreases t@.len() - i, 1int,
{
    if i < t.len() && matches!(&t[i], Token::Not) {
        match parse_not(t, i + 1) {
            Ok((e, j)) => Ok((Expr::Not(Box::new(e)), j)),
            Err(p) => Err(p),
        }
    } else {
        parse_atom(t, i)
    }
}

/// One binary precedence level: an operand, then its connective chain.
fn parse_level(t: &Vec<Token>, i: usize, level: usize) -> (r: Result<(Expr, usize), usize>)
    requires
        i <= t@.len(),
        1 <= level <= 4,
    ensures
        r matches Ok(p) ==> spec_level(t.deep_view(), i as int, level as int) == Some(
            (p.0@, p.1 as int),
        ) && i < p.1 <= t@.len(),
        r matches Err(pos) ==> spec_level(t.deep_view(), i as int, level as int) is None && pos
            <= t@.len(),
    decreases t@.len() - i, 2 * level + 1,
{
    let sub = if level == 1 {
        parse_not(t, i)
    } else {
        parse_level(t, i, level - 1)
    };
    match sub {
        Ok((e, j)) => parse_level_tail(t, e, j, level),
        Err(p) => Err(p),
    }
}

/// The left-associative chain `( OP operand )*` at one precedence level.
fn parse_level_tail(t: &Vec<Token>, acc: Expr, i: usize, level: usize) -> (r: Result<
    (Expr, usize),
    usize,
>)
    requires
        i <= t@.len(),
        1 <= level <= 4,
    ensures
        r matches Ok(p) ==> spec_level_tail(t.deep_view(), acc@, i as int, level as int) == Some(
            (p.0@, p.1 as int),
        ) && i <= p.1 <= t@.len(),
        r matches Err(pos) ==> spec_level_tail(t.deep_view(), acc@, i as int, level as int) is None
            && pos <= t@.len(),
    decreases t@.len() - i, 2 * level,
{
    if i < t.len() {
        match &t[i] {
            Token::Op(op) => {
                if level_op_exec(level, op) {
                    let sub = if level == 1 {
                        parse_not(t, i + 1)
                    } else {
                        parse_level(t, i + 1, level - 1)
                    };
                    match sub {
                        Ok((r2, k)) => parse_level_tail(
                            t,
                            Expr::Binary(*op, Box::new(acc), Box::new(r2)),
                            k,
                            level,
                        ),
                        Err(p) => Err(p),
                    }
                } else {
                    Ok((acc, i))
                }
            },
            _ => Ok((acc, i)),
        }
    } else {
        Ok((acc, i))
    }
}

/// Parse a whole token sequence into a tree, or fail with the token index at
/// which parsing stopped.  Exactly the successes of `spec_parse` succeed; no
/// partial tree is ever returned.
pub fn parse(t: &Vec<Token>) -> (r: Result<Expr, usize>)
    ensures
        r matches Ok(e) ==> spec_parse(t.deep_view()) == Some(e@),
        r matches Err(pos) ==> spec_parse(t.deep_view()) is None && pos <= t@.len(),
{
    match parse_level(t, 0, 4) {
        Ok((e, j)) => {
            if j == t.len() {
                Ok(e)
            } else {
                Err(j)
            }
        },
        Err(p) => Err(p),
    }
}

} // verus!
