//! A propositional-logic expression engine.
//!
//! Expressions such as `(A OR B) AND C` are lexed into tokens, parsed into an
//! abstract syntax tree honouring connective precedence, and evaluated into an
//! ordered trace of human-readable derivation steps.  Every stage carries a
//! mathematical model (a spec-level lexer, parser and step function) and the
//! executable code is proved to return exactly what the model says.

use vstd::prelude::*;

pub mod ast;
pub mod eval;
pub mod lexer;
pub mod parser;

use crate::ast::{evaluate_expression, spec_steps};
use crate::eval::lemma_deep_view_push;
use crate::lexer::{is_ws_char, is_ws_char_exec};

verus! {

/// Errors surfaced to the batch-processing layer: an I/O failure (carried as a
/// message, since the engine itself performs no I/O) or a failure to evaluate
/// one expression line.
#[derive(Debug)]
pub enum LogicError {
    IoError(String),
    EvaluationError(String),
}

impl LogicError {
    /// A human-readable description of the error.
    pub fn message(&self) -> (m: String)
        ensures
            m@ == match self {
                LogicError::IoError(s) => "IO error: "@ + s@,
                LogicError::EvaluationError(s) => "Evaluation error: "@ + s@,
            },
    {
        match self {
            LogicError::IoError(s) => {
                let mut m = String::from_str("IO error: ");
                m.append(s.as_str());
                m
            }
            LogicError::EvaluationError(s) => {
                let mut m = String::from_str("Evaluation error: ");
                m.append(s.as_str());
                m
            }
        }
    }
}

/// The position just past the leading whitespace, scanning from `i`.
pub open spec fn ws_prefix_end(s: Seq<char>, i: int) -> int
    decreases s.len() - i when 0 <= i <= s.len()
{
    if i < s.len() && is_ws_char(s[i]) {
        ws_prefix_end(s, i + 1)
    } else {
        i
    }
}

/// The position of the start of the trailing whitespace, scanning back from
/// `i`.
pub open spec fn ws_suffix_start(s: Seq<char>, i: int) -> int
    decreases i when 0 <= i <= s.len()
{
    if i > 0 && is_ws_char(s[i - 1]) {
        ws_suffix_start(s, i - 1)
    } else {
        i
    }
}

/// A line with its leading and trailing whitespace removed.
pub open spec fn spec_trim(s: Seq<char>) -> Seq<char> {
    let a = ws_prefix_end(s, 0);
    let b = ws_suffix_start(s, s.len() as int);
    if a <= b {
        s.subrange(a, b)
    } else {
        Seq::empty()
    }
}

/// Remove leading and trailing whitespace from one input line.
pub fn trim_line(s: &str) -> (r: String)
    ensures
        r@ == spec_trim(s@),
{
    let n = s.unicode_len();
    let mut a: usize = 0;
    while a < n && is_ws_char_exec(s.get_char(a))
        invariant
            n == s@.len(),
            a <= n,
            ws_prefix_end(s@, 0) == ws_prefix_end(s@, a as int),
        decreases n - a,
    {
        a = a + 1;
    }
    let mut b: usize = n;
    while b > 0 && is_ws_char_exec(s.get_char(b - 1))
        invariant
            n == s@.len(),
            b <= n,
            ws_suffix_start(s@, n as int) == ws_suffix_start(s@, b as int),
        decreases b,
    {
        b = b - 1;
    }
    if a <= b {
        String::from_str(s.substring_char(a, b))
    } else {
        String::new()
    }
}

/// The output block for one non-blank expression line: a header naming the
/// expression, each step indented by two spaces, and a blank separator line.
pub open spec fn spec_block(expr: Seq<char>, steps: Seq<Seq<char>>) -> Seq<Seq<char>> {
    seq!["Expression: "@ + expr] + steps.map_values(|st: Seq<char>| "  "@ + st) + seq![
        Seq::<char>::empty(),
    ]
}

/// The batch computation from line `k` on: blank lines (after trimming) are
/// skipped and contribute no output; each other line contributes its block;
/// the first line the engine cannot evaluate stops the whole batch, as `Err`
/// carrying that line's trimmed text.
pub open spec fn spec_process_from(lines: Seq<Seq<char>>, k: int) -> Result<
    Seq<Seq<char>>,
    Seq<char>,
>
    decreases lines.len() - k when 0 <= k <= lines.len()
{
    if k >= lines.len() {
        Ok(Seq::empty())
    } else {
        let t = spec_trim(lines[k]);
        if t.len() == 0 {
            spec_process_from(lines, k + 1)
        } else {
            match spec_steps(t) {
                Some(steps) => match spec_process_from(lines, k + 1) {
                    Ok(rest) => Ok(spec_block(t, steps) + rest),
                    Err(e) => Err(e),
                },
                None => Err(t),
            }
        }
    }
}

/// The batch computation for a whole input file, given as its lines.
pub open spec fn spec_process(lines: Seq<Seq<char>>) -> Result<Seq<Seq<char>>, Seq<char>> {
    spec_process_from(lines, 0)
}

/// Output lines already emitted, prepended to what the remaining input lines
/// produce.
pub open spec fn proc_prepend(pre: Seq<Seq<char>>, r: Result<Seq<Seq<char>>, Seq<char>>) -> Result<
    Seq<Seq<char>>,
    Seq<char>,
> {
    match r {
        Ok(rest) => Ok(pre + rest),
        Err(e) => Err(e),
    }
}

/// The batch computation on the lines of an input file: exactly the output
/// lines `spec_process` assigns to them, or, for the first line the engine
/// cannot evaluate, an `EvaluationError` naming that line.  Blank lines are
/// skipped and emit no output block.
pub fn process_lines(lines: &Vec<String>) -> (r: Result<Vec<String>, LogicError>)
    ensures
        r matches Ok(out) ==> spec_process(lines.deep_view()) == Ok::<Seq<Seq<char>>, Seq<char>>(
            out.deep_view(),
        ),
        r matches Err(e) ==> (e matches LogicError::EvaluationError(msg) && spec_process(
            lines.deep_view(),
        ) matches Err(t) && msg@ == "Could not evaluate expression: "@ + t),
        spec_process(lines.deep_view()) is Ok ==> r is Ok,
{
    let ghost lv = lines.deep_view();
    let mut out: Vec<String> = Vec::new();
    let mut k: usize = 0;
    while k < lines.len()
        invariant
            lv == lines.deep_view(),
            lv.len() == lines@.len(),
            k <= lines@.len(),
            proc_prepend(out.deep_view(), spec_process_from(lv, k as int)) == spec_process_from(
                lv,
                0,
            ),
        decreases lines@.len() - k,
    {
        let ghost pre = out.deep_view();
        let line_ref = &lines[k];
        let t = trim_line(line_ref.as_str());
        if t.as_str().unicode_len() == 0 {
            k = k + 1;
        } else {
            match evaluate_expression(t.as_str()) {
                Ok(steps) => {
                    let mut hdr = String::from_str("Expression: ");
                    hdr.append(t.as_str());
                    let ghost prev0 = out;
                    out.push(hdr);
                    proof {
                        lemma_deep_view_push(prev0, out);
                    }
                    let ghost base = out.deep_view();
                    let mut si: usize = 0;
                    while si < steps.len()
                        invariant
                            si <= steps@.len(),
                            steps.deep_view().len() == steps@.len(),
                            base == pre + seq!["Expression: "@ + spec_trim(lv[k as int])],
                            out.deep_view() == base + steps.deep_view().subrange(
                                0,
                                si as int,
                            ).map_values(|st: Seq<char>| "  "@ + st),
                        decreases steps@.len() - si,
                    {
                        let mut ln = String::from_str("  ");
                        ln.append(steps[si].as_str());
                        let ghost prev = out;
                        out.push(ln);
                        si = si + 1;
                        proof {
                            lemma_deep_view_push(prev, out);
                            assert(steps.deep_view().subrange(0, si as int).map_values(
                                |st: Seq<char>| "  "@ + st,
                            ) =~= steps.deep_view().subrange(0, si - 1).map_values(
                                |st: Seq<char>| "  "@ + st,
                            ).push("  "@ + steps.deep_view()[si - 1]));
                            assert(out.deep_view() =~= base + steps.deep_view().subrange(
                                0,
                                si as int,
                            ).map_values(|st: Seq<char>| "  "@ + st));
                        }
                    }
                    let ghost prev1 = out;
                    out.push(String::new());
                    k = k + 1;
                    proof {
                        lemma_deep_view_push(prev1, out);
                        assert(steps.deep_view().subrange(0, steps@.len() as int)
                            =~= steps.deep_view());
                        assert(out.deep_view() =~= pre + spec_block(
                            spec_trim(lv[k - 1]),
                            steps.deep_view(),
                        ));
                        if let Ok(rest) = spec_process_from(lv, k as int) {
                            assert(pre + (spec_block(spec_trim(lv[k - 1]), steps.deep_view())
                                + rest) =~= out.deep_view() + rest);
                        }
                    }
                },
                Err(_) => {
                    let mut msg = String::from_str("Could not evaluate expression: ");
                    msg.append(t.as_str());
                    return Err(LogicError::EvaluationError(msg));
                },
            }
        }
    }
    proof {
        assert(out.deep_view() + Seq::<Seq<char>>::empty() =~= out.deep_view());
    }
    Ok(out)
}

} // verus!
