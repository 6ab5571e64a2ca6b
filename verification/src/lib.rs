//! A small arithmetic-expression interpreter: text is scanned into tokens,
//! parsed by recursive descent into expression trees, and each tree is
//! compiled into a flat plan of evaluation steps.  The numeric work on
//! those steps is left to the host, which supplies the floating-point
//! arithmetic; everything up to that point is specified and verified here.

pub mod eval;
pub mod lexer;
pub mod parser;

use vstd::prelude::*;

verus! {

/// Everything the pipeline decides about one text, short of the arithmetic
/// itself: the scan error that stops it, the parse error that stops it, or
/// the evaluation plan (or evaluation error) of each expression found.
pub enum SpecOutcome {
    LexFailure(lexer::LexError),
    ParseFailure(parser::SpecParseError),
    Plans(Seq<Result<Seq<eval::SpecEvalStep>, eval::EvalError>>),
}

/// As `SpecOutcome`, produced by `interpret`.
#[derive(Debug, PartialEq)]
pub enum Outcome {
    LexFailure(lexer::LexError),
    ParseFailure(parser::ParseError),
    Plans(Vec<Result<Vec<eval::EvalStep>, eval::EvalError>>),
}

pub open spec fn plan_view(p: Result<Vec<eval::EvalStep>, eval::EvalError>) -> Result<
    Seq<eval::SpecEvalStep>,
    eval::EvalError,
> {
    match p {
        Ok(steps) => Ok(eval::step_views(steps@)),
        Err(e) => Err(e),
    }
}

impl View for Outcome {
    type V = SpecOutcome;

    open spec fn view(&self) -> SpecOutcome {
        match self {
            Outcome::LexFailure(e) => SpecOutcome::LexFailure(*e),
            Outcome::ParseFailure(e) => SpecOutcome::ParseFailure(e@),
            Outcome::Plans(plans) => SpecOutcome::Plans(
                plans@.map_values(|p: Result<Vec<eval::EvalStep>, eval::EvalError>| plan_view(p)),
            ),
        }
    }
}

/// The pipeline as one function of the input text.
pub open spec fn spec_interpret(s: Seq<char>) -> SpecOutcome {
    let scanned = lexer::spec_scan(s, 0);
    match scanned.error {
        Some(e) => SpecOutcome::LexFailure(e),
        None => match parser::spec_parse_program(scanned.tokens, 0) {
            Err(e) => SpecOutcome::ParseFailure(e),
            Ok(es) => SpecOutcome::Plans(
                es.map_values(|e: parser::SpecExpr| eval::spec_compile(e)),
            ),
        },
    }
}

/// The whole pipeline on one text: scan, parse, and compile each
/// expression into its evaluation plan.
pub fn interpret(input: &str) -> (r: Outcome)
    ensures
        r@ == spec_interpret(input@),
{
    let tokens = match lexer::tokenize(input) {
        Ok(tokens) => tokens,
        Err(e) => return Outcome::LexFailure(e),
    };
    let mut expressions = match parser::parse_program(tokens) {
        Ok(expressions) => expressions,
        Err(e) => return Outcome::ParseFailure(e),
    };
    let ghost all = parser::expr_views(expressions@);
    let mut plans: Vec<Result<Vec<eval::EvalStep>, eval::EvalError>> = Vec::new();
    proof {
        assert(all.skip(0) =~= all);
    }
    while expressions.len() > 0
        invariant
            parser::expr_views(expressions@) == all.skip(plans@.len() as int),
            plans@.len() <= all.len(),
            plans@.map_values(|p: Result<Vec<eval::EvalStep>, eval::EvalError>| plan_view(p))
                == all.take(plans@.len() as int).map_values(
                |e: parser::SpecExpr| eval::spec_compile(e),
            ),
        decreases expressions@.len(),
    {
        let ghost i = plans@.len() as int;
        let ghost prev = expressions@;
        let expression = expressions.remove(0);
        proof {
            assert(parser::expr_views(prev).len() == prev.len());
            assert(prev.len() > 0);
            assert(all.skip(i).len() == all.len() - i);
            assert(0 <= i < all.len());
            assert(expression@ == parser::expr_views(prev)[0]);
            assert(parser::expr_views(prev)[0] == all.skip(i)[0]);
            assert(all.skip(i)[0] == all[0 + i]);
            assert(expression@ == all[i]);
            assert(parser::expr_views(expressions@) =~= parser::expr_views(prev).skip(1));
            assert(all.skip(i).skip(1) =~= all.skip(i + 1));
        }
        let plan = eval::compile(expression);
        proof {
            assert(plan_view(plan) == eval::spec_compile(expression@));
        }
        let ghost prev_plans = plans@;
        plans.push(plan);
        proof {
            let f = |p: Result<Vec<eval::EvalStep>, eval::EvalError>| plan_view(p);
            let g = |e: parser::SpecExpr| eval::spec_compile(e);
            assert forall|j: int| 0 <= j < i + 1 implies plans@.map_values(f)[j] == all.take(
                i + 1,
            ).map_values(g)[j] by {
                assert(all.take(i + 1)[j] == all[j]);
                if j < i {
                    assert(all.take(i)[j] == all[j]);
                    assert(prev_plans.map_values(f)[j] == all.take(i).map_values(g)[j]);
                    assert(plans@[j] == prev_plans[j]);
                } else {
                    assert(plans@[j] == plan);
                }
            }
            assert(plans@.map_values(f) =~= all.take(i + 1).map_values(g));
        }
    }
    proof {
        assert(plans@.len() == all.len());
        assert(all.take(all.len() as int) =~= all);
    }
    Outcome::Plans(plans)
}

/// Tokenizing, parsing and compiling the same text twice yields identical
/// outcomes: each stage's contract pins its result as a function of its
/// input alone, so no state carries over between independent runs.  The
/// floating-point folding of the evaluation steps happens outside this
/// crate and is not covered by this statement.
pub proof fn lemma_interpret_deterministic(s: Seq<char>, first: SpecOutcome, second: SpecOutcome)
    requires
        first == spec_interpret(s),
        second == spec_interpret(s),
    ensures
        first == second,
{
}

} // verus!
