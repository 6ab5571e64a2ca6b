use arith::eval::compile;
use arith::eval::EvalError;
use arith::eval::EvalStep;
use arith::lexer::tokenize;
use arith::lexer::LexError;
use arith::lexer::Lexer;
use arith::lexer::Token;
use arith::interpret;
use arith::parser::parse_program;
use arith::Outcome;
use arith::parser::Expression;
use arith::parser::Operator;
use arith::parser::ParseError;
use arith::parser::Parser;

// Evaluates one expression tree: the verified crate compiles it into an
// evaluation plan, and the plan is folded here with f64 arithmetic, which
// floating point keeps out of the verified crate.
fn evaluate(expression: Expression) -> Result<f64, EvalError> {
    Ok(evaluate_steps(compile(expression)?))
}

fn evaluate_steps(steps: Vec<EvalStep>) -> f64 {
    let mut stack: Vec<f64> = Vec::new();
    for step in steps {
        match step {
            EvalStep::Push(text) => {
                stack.push(text.parse::<f64>().expect("literal text denotes a number"))
            }
            EvalStep::Apply(op) => {
                let right = stack.pop().expect("a right operand");
                let left = stack.pop().expect("a left operand");
                let value = match op {
                    Operator::Add => left + right,
                    Operator::Subtract => left - right,
                    Operator::Multiply => left * right,
                    Operator::Divide => left / right,
                    Operator::Exponentiate => left.powf(right),
                };
                stack.push(value);
            }
            EvalStep::Negate => {
                let value = stack.pop().expect("an operand");
                stack.push(-value);
            }
        }
    }
    stack.pop().expect("a result")
}

fn run(program: &str) -> f64 {
    let tokens = tokenize(program).expect("the program lexes");
    let mut expressions = parse_program(tokens).expect("the program parses");
    assert_eq!(1, expressions.len());
    let expression = expressions.pop().unwrap();
    evaluate(expression).expect("the tree evaluates")
}

#[test]
fn test() {
    let mut lexer = Lexer::new("5 + 5 * 3");
    let mut tokens: Vec<Token> = Vec::new();
    while let Some(item) = lexer.next() {
        tokens.push(item.unwrap());
    }
    assert_eq!(
        tokens,
        vec![
            Token::Literal("5".to_string()),
            Token::Plus,
            Token::Literal("5".to_string()),
            Token::Star,
            Token::Literal("3".to_string())
        ]
    )
}

#[test]
fn test_basic_programs() {
    assert_eq!(20f64, run("5 + 5 * 3"));
    assert_eq!(30f64, run("(5 + 5) * 3"));
}

#[test]
fn test_exponentiation_right_associative() {
    // 2^(3^2), not (2^3)^2
    assert_eq!(512f64, run("2^3^2"));
}

#[test]
fn test_division_right_associative() {
    // the multiplicative rule recurses on itself: 8/(4/2), not (8/4)/2
    assert_eq!(4f64, run("8/4/2"));
}

#[test]
fn test_additive_left_associative() {
    assert_eq!(1f64, run("5-3-1"));
}

#[test]
fn test_precedence() {
    assert_eq!(14f64, run("2+3*4"));
    assert_eq!(6f64, run(" 5 \t+\n1 "));
}

#[test]
fn test_unary_stacking() {
    assert_eq!(5f64, run("--5"));
    // the grammar parses the whole unary term as the base: (-5)^2
    assert_eq!(25f64, run("-5^2"));
}

#[test]
fn test_decimal_literals() {
    assert_eq!(3f64, run("1.5*2"));
    assert_eq!(2.75f64, run("2.5+0.25"));
}

#[test]
fn test_multi_digit_literals() {
    let tokens = tokenize("10 + 200").unwrap();
    assert_eq!(
        tokens,
        vec![
            Token::Literal("10".to_string()),
            Token::Plus,
            Token::Literal("200".to_string())
        ]
    );
}

#[test]
fn test_trailing_operator_is_parse_error() {
    let tokens = tokenize("5 + ").unwrap();
    let result = parse_program(tokens);
    assert_eq!(result, Err(ParseError::UnexpectedEndOfInput));
}

#[test]
fn test_invalid_character_is_lex_error() {
    assert_eq!(Err(LexError::InvalidCharacter('&')), tokenize("5 & 3"));
}

#[test]
fn test_malformed_literal_is_lex_error() {
    assert_eq!(Err(LexError::MalformedLiteral), tokenize("1.2.3"));
}

#[test]
fn test_missing_closing_parenthesis() {
    let tokens = tokenize("(5 + 3").unwrap();
    let result = parse_program(tokens);
    assert_eq!(result, Err(ParseError::MissingClosingParenthesis));
}

#[test]
fn test_operator_where_value_expected() {
    let tokens = tokenize("5 + * 3").unwrap();
    let result = parse_program(tokens);
    assert_eq!(result, Err(ParseError::UnexpectedToken(Token::Star)));
}

#[test]
fn test_token_to_operator_conversion() {
    assert_eq!(Ok(Operator::Add), Operator::try_from(Token::Plus));
    assert_eq!(Ok(Operator::Subtract), Operator::try_from(Token::Minus));
    assert_eq!(Ok(Operator::Multiply), Operator::try_from(Token::Star));
    assert_eq!(Ok(Operator::Divide), Operator::try_from(Token::ForwardSlash));
    assert_eq!(Ok(Operator::Exponentiate), Operator::try_from(Token::Caret));
    assert_eq!(
        Err(ParseError::NotAnOperator(Token::LeftParentheses)),
        Operator::try_from(Token::LeftParentheses)
    );
    assert_eq!(
        Err(ParseError::NotAnOperator(Token::RightParentheses)),
        Operator::try_from(Token::RightParentheses)
    );
    assert_eq!(
        Err(ParseError::NotAnOperator(Token::Literal("5".to_string()))),
        Operator::try_from(Token::Literal("5".to_string()))
    );
}

#[test]
fn test_invalid_unary_operator_is_eval_error() {
    // the grammar never builds such a node; the evaluator defends anyway
    let tree = Expression::Unary {
        right: Box::new(Expression::Literal("5".to_string())),
        operator: Operator::Add,
    };
    assert_eq!(
        Err(EvalError::InvalidUnaryOperator(Operator::Add)),
        compile(tree)
    );
}

#[test]
fn test_parse_tree_shape() {
    let tokens = tokenize("1+2").unwrap();
    let expressions = parse_program(tokens).unwrap();
    assert_eq!(
        expressions,
        vec![Expression::Binary {
            left: Box::new(Expression::Literal("1".to_string())),
            operator: Operator::Add,
            right: Box::new(Expression::Literal("2".to_string())),
        }]
    );
}

#[test]
fn test_empty_input() {
    assert_eq!(Ok(Vec::new()), tokenize(""));
    let mut parser = Parser::new(Vec::new());
    assert!(parser.next().is_none());
    assert_eq!(Ok(Vec::new()), parse_program(Vec::new()));
}

#[test]
fn test_multiple_expressions() {
    let tokens = tokenize("1 2").unwrap();
    let expressions = parse_program(tokens).unwrap();
    assert_eq!(2, expressions.len());
    let values: Vec<f64> = expressions
        .into_iter()
        .map(|e| evaluate(e).unwrap())
        .collect();
    assert_eq!(vec![1f64, 2f64], values);
}

#[test]
fn test_parser_next_yields_then_ends() {
    let tokens = tokenize("1+2").unwrap();
    let mut parser = Parser::new(tokens);
    let first = parser.next().expect("one expression");
    assert!(first.is_ok());
    assert!(parser.next().is_none());
}

#[test]
fn test_interpret_reports_stage_failures() {
    assert_eq!(
        Outcome::LexFailure(LexError::InvalidCharacter('&')),
        interpret("5 & 3")
    );
    assert_eq!(
        Outcome::ParseFailure(ParseError::MissingClosingParenthesis),
        interpret("(5 + 3")
    );
}

#[test]
fn test_interpret_yields_plans() {
    match interpret("5 + 5 * 3") {
        Outcome::Plans(plans) => {
            assert_eq!(1, plans.len());
            let mut plans = plans;
            let plan = plans.pop().unwrap().expect("the tree compiles");
            assert_eq!(20f64, evaluate_steps(plan));
        }
        other => panic!("expected plans, got {other:?}"),
    }
}

#[test]
fn test_pipeline_is_repeatable() {
    let program = "3 + 4 * 2 - -1";
    let first = run(program);
    let second = run(program);
    assert_eq!(first, second);
    assert_eq!(tokenize(program), tokenize(program));
}
