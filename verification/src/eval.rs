//! Evaluation of an expression tree, up to the arithmetic itself: the tree
//! is compiled into a flat plan of evaluation steps, literals and operators
//! in the order an evaluator applies them.  Folding the plan with
//! floating-point arithmetic is the host's part; the order of operations,
//! and the defence against a malformed unary node, are decided and proved
//! here.

use crate::parser::Expression;
use crate::parser::Operator;
use crate::parser::SpecExpr;
use vstd::prelude::*;

verus! {

/// The one way evaluation itself can fail: a unary node whose operator is
/// not negation.  The grammar never builds such a node; the check guards
/// against trees built some other way.
#[derive(Debug, PartialEq, Eq, Structural, Clone, Copy)]
pub enum EvalError {
    InvalidUnaryOperator(Operator),
}

/// One step of evaluating an expression: push a literal's value, replace
/// the two values most recently produced with the operator applied to them
/// (the earlier one as left operand), or negate the last value produced.
#[derive(Debug, PartialEq)]
pub enum EvalStep {
    Push(String),
    Apply(Operator),
    Negate,
}

/// The mathematical shape of an evaluation step.
pub enum SpecEvalStep {
    Push(Seq<char>),
    Apply(Operator),
    Negate,
}

impl View for EvalStep {
    type V = SpecEvalStep;

    open spec fn view(&self) -> SpecEvalStep {
        match self {
            EvalStep::Push(text) => SpecEvalStep::Push(text@),
            EvalStep::Apply(op) => SpecEvalStep::Apply(*op),
            EvalStep::Negate => SpecEvalStep::Negate,
        }
    }
}

pub open spec fn step_views(steps: Seq<EvalStep>) -> Seq<SpecEvalStep> {
    steps.map_values(|s: EvalStep| s@)
}

/// The evaluation plan of a tree: for a binary node the left operand's
/// plan, then the right operand's, then the operator; for a negation the
/// operand's plan and then the negation; a grouping adds nothing.  A unary
/// node with any operator but negation is the evaluation error, and the
/// first such node in this same order is the one reported.
pub open spec fn spec_compile(e: SpecExpr) -> Result<Seq<SpecEvalStep>, EvalError>
    decreases e,
{
    match e {
        SpecExpr::Literal(text) => Ok(seq![SpecEvalStep::Push(text)]),
        SpecExpr::Binary { left, operator, right } => match spec_compile(*left) {
            Err(err) => Err(err),
            Ok(l) => match spec_compile(*right) {
                Err(err) => Err(err),
                Ok(r) => Ok(l + r + seq![SpecEvalStep::Apply(operator)]),
            },
        },
        SpecExpr::Unary { right, operator } => match spec_compile(*right) {
            Err(err) => Err(err),
            Ok(r) => if operator is Subtract {
                Ok(r + seq![SpecEvalStep::Negate])
            } else {
                Err(EvalError::InvalidUnaryOperator(operator))
            },
        },
        SpecExpr::Grouping(inner) => spec_compile(*inner),
    }
}

fn compile_into(expression: Expression, out: &mut Vec<EvalStep>) -> (r: Result<(), EvalError>)
    ensures
        match (r, spec_compile(expression@)) {
            (Ok(_), Ok(p)) => step_views(final(out)@) == step_views(old(out)@) + p,
            (Err(e), Err(se)) => e == se,
            _ => false,
        },
    decreases expression,
{
    let ghost seen = step_views(out@);
    match expression {
        Expression::Literal(text) => {
            let ghost t = text@;
            out.push(EvalStep::Push(text));
            proof {
                assert(step_views(out@) =~= seen + seq![SpecEvalStep::Push(t)]);
            }
            Ok(())
        },
        Expression::Binary { left, operator, right } => {
            let ghost le = (*left)@;
            let ghost re = (*right)@;
            if let Err(e) = compile_into(*left, out) {
                return Err(e);
            }
            let ghost with_left = step_views(out@);
            if let Err(e) = compile_into(*right, out) {
                return Err(e);
            }
            let ghost with_right = step_views(out@);
            out.push(EvalStep::Apply(operator));
            proof {
                let l = spec_compile(le)->Ok_0;
                let r = spec_compile(re)->Ok_0;
                assert(step_views(out@) =~= with_right + seq![SpecEvalStep::Apply(operator)]);
                assert(seen + (l + r + seq![SpecEvalStep::Apply(operator)]) =~= ((seen + l) + r)
                    + seq![SpecEvalStep::Apply(operator)]);
            }
            Ok(())
        },
        Expression::Unary { right, operator } => {
            let ghost re = (*right)@;
            if let Err(e) = compile_into(*right, out) {
                return Err(e);
            }
            let ghost with_right = step_views(out@);
            match operator {
                Operator::Subtract => {
                    out.push(EvalStep::Negate);
                    proof {
                        let r = spec_compile(re)->Ok_0;
                        assert(step_views(out@) =~= with_right + seq![SpecEvalStep::Negate]);
                        assert(seen + (r + seq![SpecEvalStep::Negate]) =~= (seen + r)
                            + seq![SpecEvalStep::Negate]);
                    }
                    Ok(())
                },
                other => Err(EvalError::InvalidUnaryOperator(other)),
            }
        },
        Expression::Grouping(inner) => compile_into(*inner, out),
    }
}

/// What a stack of `depth` values becomes once a plan has run: `None` if
/// some step lacks its operands, the final depth otherwise.
pub open spec fn spec_run_depth(p: Seq<SpecEvalStep>, depth: nat) -> Option<nat>
    decreases p.len(),
{
    if p.len() == 0 {
        Some(depth)
    } else {
        match p[0] {
            SpecEvalStep::Push(_) => spec_run_depth(p.skip(1), depth + 1),
            SpecEvalStep::Apply(_) => if depth >= 2 {
                spec_run_depth(p.skip(1), (depth - 1) as nat)
            } else {
                None
            },
            SpecEvalStep::Negate => if depth >= 1 {
                spec_run_depth(p.skip(1), depth)
            } else {
                None
            },
        }
    }
}

proof fn lemma_run_depth_append(a: Seq<SpecEvalStep>, b: Seq<SpecEvalStep>, depth: nat)
    requires
        spec_run_depth(a, depth) is Some,
    ensures
        spec_run_depth(a + b, depth) == spec_run_depth(b, spec_run_depth(a, depth)->Some_0),
    decreases a.len(),
{
    if a.len() == 0 {
        assert(a + b =~= b);
    } else {
        assert((a + b).skip(1) =~= a.skip(1) + b);
        match a[0] {
            SpecEvalStep::Push(_) => lemma_run_depth_append(a.skip(1), b, depth + 1),
            SpecEvalStep::Apply(_) => lemma_run_depth_append(a.skip(1), b, (depth - 1) as nat),
            SpecEvalStep::Negate => lemma_run_depth_append(a.skip(1), b, depth),
        }
    }
}

/// An evaluator that follows a compiled plan never wants for operands and
/// ends with exactly one more value on its stack than it started with: on
/// an empty stack, the one result.
pub proof fn lemma_compiled_plan_runs(e: SpecExpr, depth: nat)
    requires
        spec_compile(e) is Ok,
    ensures
        spec_run_depth(spec_compile(e)->Ok_0, depth) == Some((depth + 1) as nat),
    decreases e,
{
    reveal_with_fuel(spec_run_depth, 3);
    match e {
        SpecExpr::Literal(text) => {
            assert(seq![SpecEvalStep::Push(text)].skip(1) =~= Seq::<SpecEvalStep>::empty());
        },
        SpecExpr::Binary { left, operator, right } => {
            let l = spec_compile(*left)->Ok_0;
            let r = spec_compile(*right)->Ok_0;
            lemma_compiled_plan_runs(*left, depth);
            lemma_compiled_plan_runs(*right, depth + 1);
            lemma_run_depth_append(l, r, depth);
            lemma_run_depth_append(l + r, seq![SpecEvalStep::Apply(operator)], depth);
            assert(seq![SpecEvalStep::Apply(operator)].skip(1) =~= Seq::<SpecEvalStep>::empty());
        },
        SpecExpr::Unary { right, operator } => {
            let r = spec_compile(*right)->Ok_0;
            lemma_compiled_plan_runs(*right, depth);
            lemma_run_depth_append(r, seq![SpecEvalStep::Negate], depth);
            assert(seq![SpecEvalStep::Negate].skip(1) =~= Seq::<SpecEvalStep>::empty());
        },
        SpecExpr::Grouping(inner) => {
            lemma_compiled_plan_runs(*inner, depth);
        },
    }
}

/// The evaluation plan of the tree, or the defensive error for a unary
/// node that negation cannot explain.
pub fn compile(expression: Expression) -> (r: Result<Vec<EvalStep>, EvalError>)
    ensures
        match (r, spec_compile(expression@)) {
            (Ok(steps), Ok(p)) => step_views(steps@) == p,
            (Err(e), Err(se)) => e == se,
            _ => false,
        },
{
    let mut out: Vec<EvalStep> = Vec::new();
    match compile_into(expression, &mut out) {
        Ok(_) => {
            proof {
                if spec_compile(expression@) is Ok {
                    assert(step_views(Seq::<EvalStep>::empty()) + spec_compile(
                        expression@,
                    )->Ok_0 =~= spec_compile(expression@)->Ok_0);
                }
            }
            Ok(out)
        },
        Err(e) => Err(e),
    }
}

} // verus!
