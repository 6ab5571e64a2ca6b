//! Recursive-descent parsing of a token stream into expression trees.
//!
//! The grammar, loosest-binding rule first:
//!
//! ```text
//! expression     := exponentiation
//! exponentiation := term ( '^' exponentiation )?      right-associative
//! term           := factor ( ('+'|'-') factor )*      left-associative
//! factor         := unary ( ('*'|'/') factor )?       right-associative
//! unary          := '-' unary | primary
//! primary        := LITERAL | '(' expression ')'
//! ```
//!
//! The multiplicative rule recurses on itself for its right operand, so
//! `8/4/2` groups as `8/(4/2)`; this mirrors the exponentiation rule and is
//! kept deliberately, though mathematical convention would group it to the
//! left.  One token of lookahead decides every rule; there is no
//! backtracking.

use crate::lexer::token_views;
use crate::lexer::SpecToken;
use crate::lexer::Token;
use vstd::prelude::*;

verus! {

/// A binary or unary operator, as distinct from the token that spelled it.
#[derive(Debug, PartialEq, Eq, Structural, Clone, Copy)]
pub enum Operator {
    Multiply,
    Divide,
    Add,
    Subtract,
    Exponentiate,
}

/// An expression tree.  Every node owns its children outright; a literal
/// leaf carries the text of the number it denotes.
#[derive(Debug, PartialEq)]
pub enum Expression {
    Literal(String),
    Binary { left: Box<Expression>, operator: Operator, right: Box<Expression> },
    Unary { right: Box<Expression>, operator: Operator },
    Grouping(Box<Expression>),
}

/// The mathematical shape of an expression tree.
pub enum SpecExpr {
    Literal(Seq<char>),
    Binary { left: Box<SpecExpr>, operator: Operator, right: Box<SpecExpr> },
    Unary { right: Box<SpecExpr>, operator: Operator },
    Grouping(Box<SpecExpr>),
}

pub open spec fn expr_view(e: Expression) -> SpecExpr
    decreases e,
{
    match e {
        Expression::Literal(s) => SpecExpr::Literal(s@),
        Expression::Binary { left, operator, right } => SpecExpr::Binary {
            left: Box::new(expr_view(*left)),
            operator,
            right: Box::new(expr_view(*right)),
        },
        Expression::Unary { right, operator } => SpecExpr::Unary {
            right: Box::new(expr_view(*right)),
            operator,
        },
        Expression::Grouping(inner) => SpecExpr::Grouping(Box::new(expr_view(*inner))),
    }
}

impl View for Expression {
    type V = SpecExpr;

    open spec fn view(&self) -> SpecExpr {
        expr_view(*self)
    }
}

pub open spec fn expr_views(es: Seq<Expression>) -> Seq<SpecExpr> {
    es.map_values(|e: Expression| e@)
}

/// Why parsing stopped: a token that is no operator where one was
/// expected, a token that starts no primary expression, tokens running out
/// mid-expression, or an unclosed parenthesis.
#[derive(Debug, PartialEq)]
pub enum ParseError {
    NotAnOperator(Token),
    UnexpectedToken(Token),
    UnexpectedEndOfInput,
    MissingClosingParenthesis,
}

/// The mathematical shape of a parse error.
pub enum SpecParseError {
    NotAnOperator(SpecToken),
    UnexpectedToken(SpecToken),
    UnexpectedEndOfInput,
    MissingClosingParenthesis,
}

impl View for ParseError {
    type V = SpecParseError;

    open spec fn view(&self) -> SpecParseError {
        match self {
            ParseError::NotAnOperator(t) => SpecParseError::NotAnOperator(t@),
            ParseError::UnexpectedToken(t) => SpecParseError::UnexpectedToken(t@),
            ParseError::UnexpectedEndOfInput => SpecParseError::UnexpectedEndOfInput,
            ParseError::MissingClosingParenthesis => SpecParseError::MissingClosingParenthesis,
        }
    }
}

/// The operator a token stands for; literals and parentheses stand for
/// none.
pub open spec fn spec_operator_of(t: SpecToken) -> Result<Operator, SpecParseError> {
    match t {
        SpecToken::Plus => Ok(Operator::Add),
        SpecToken::Minus => Ok(Operator::Subtract),
        SpecToken::Star => Ok(Operator::Multiply),
        SpecToken::ForwardSlash => Ok(Operator::Divide),
        SpecToken::Caret => Ok(Operator::Exponentiate),
        _ => Err(SpecParseError::NotAnOperator(t)),
    }
}

impl Operator {
    /// The operator a token stands for, or an error for a token that
    /// stands for none.
    pub fn try_from(token: Token) -> (r: Result<Operator, ParseError>)
        ensures
            match (r, spec_operator_of(token@)) {
                (Ok(op), Ok(sop)) => op == sop,
                (Err(e), Err(se)) => e@ == se,
                _ => false,
            },
    {
        match token {
            Token::Plus => Ok(Operator::Add),
            Token::Minus => Ok(Operator::Subtract),
            Token::Star => Ok(Operator::Multiply),
            Token::ForwardSlash => Ok(Operator::Divide),
            Token::Caret => Ok(Operator::Exponentiate),
            t => Err(ParseError::NotAnOperator(t)),
        }
    }
}

/// What one grammar rule yields at a position: the expression or error,
/// and the position just past what the rule consumed.
pub struct SpecParsed {
    pub result: Result<SpecExpr, SpecParseError>,
    pub next: int,
}

/// `primary := LITERAL | '(' expression ')'`.  Any other token, or the end
/// of the stream, is an error; a parenthesized expression must be followed
/// by a closing parenthesis, which is consumed along with it.
pub open spec fn spec_primary(ts: Seq<SpecToken>, pos: int) -> SpecParsed
    decreases ts.len() - pos, 0int,
{
    if !(0 <= pos < ts.len()) {
        SpecParsed { result: Err(SpecParseError::UnexpectedEndOfInput), next: pos }
    } else {
        match ts[pos] {
            SpecToken::Literal(text) => SpecParsed {
                result: Ok(SpecExpr::Literal(text)),
                next: pos + 1,
            },
            SpecToken::LeftParentheses => {
                let inner = spec_expression(ts, pos + 1);
                match inner.result {
                    Err(e) => SpecParsed { result: Err(e), next: inner.next },
                    Ok(body) => if 0 <= inner.next < ts.len() && ts[inner.next]
                        is RightParentheses {
                        SpecParsed {
                            result: Ok(SpecExpr::Grouping(Box::new(body))),
                            next: inner.next + 1,
                        }
                    } else {
                        SpecParsed {
                            result: Err(SpecParseError::MissingClosingParenthesis),
                            next: inner.next + 1,
                        }
                    },
                }
            },
            t => SpecParsed { result: Err(SpecParseError::UnexpectedToken(t)), next: pos + 1 },
        }
    }
}

/// `unary := '-' unary | primary`: any run of leading minus signs stacks.
pub open spec fn spec_unary(ts: Seq<SpecToken>, pos: int) -> SpecParsed
    decreases ts.len() - pos, 1int,
{
    if 0 <= pos < ts.len() && ts[pos] is Minus {
        let operand = spec_unary(ts, pos + 1);
        match operand.result {
            Ok(body) => SpecParsed {
                result: Ok(
                    SpecExpr::Unary { right: Box::new(body), operator: Operator::Subtract },
                ),
                next: operand.next,
            },
            Err(_) => operand,
        }
    } else {
        spec_primary(ts, pos)
    }
}

/// `factor := unary ( ('*'|'/') factor )?`: the right operand recurses
/// into `factor` itself, so chains of `*` and `/` group to the right.
pub open spec fn spec_factor(ts: Seq<SpecToken>, pos: int) -> SpecParsed
    decreases ts.len() - pos, 2int,
{
    let first = spec_unary(ts, pos);
    match first.result {
        Err(_) => first,
        Ok(left) => {
            if pos <= first.next < ts.len() && (ts[first.next] is Star || ts[first.next]
                is ForwardSlash) {
                let op = if ts[first.next] is Star {
                    Operator::Multiply
                } else {
                    Operator::Divide
                };
                let rest = spec_factor(ts, first.next + 1);
                match rest.result {
                    Err(_) => rest,
                    Ok(right) => SpecParsed {
                        result: Ok(
                            SpecExpr::Binary {
                                left: Box::new(left),
                                operator: op,
                                right: Box::new(right),
                            },
                        ),
                        next: rest.next,
                    },
                }
            } else {
                first
            }
        },
    }
}

/// The additive tail: with `acc` parsed so far, each further `+` or `-`
/// and its factor fold into a new left operand, so chains of `+` and `-`
/// group to the left.
pub open spec fn spec_term_rest(ts: Seq<SpecToken>, pos: int, acc: SpecExpr) -> SpecParsed
    decreases ts.len() - pos, 3int,
{
    if 0 <= pos < ts.len() && (ts[pos] is Plus || ts[pos] is Minus) {
        let op = if ts[pos] is Plus {
            Operator::Add
        } else {
            Operator::Subtract
        };
        let rhs = spec_factor(ts, pos + 1);
        match rhs.result {
            Err(_) => rhs,
            Ok(right) => {
                let joined = SpecExpr::Binary {
                    left: Box::new(acc),
                    operator: op,
                    right: Box::new(right),
                };
                if pos < rhs.next <= ts.len() {
                    spec_term_rest(ts, rhs.next, joined)
                } else {
                    // parsing always advances within bounds (lemma_advance),
                    // so this branch is never reached
                    SpecParsed { result: Ok(joined), next: rhs.next }
                }
            },
        }
    } else {
        SpecParsed { result: Ok(acc), next: pos }
    }
}

/// `term := factor ( ('+'|'-') factor )*`.
pub open spec fn spec_term(ts: Seq<SpecToken>, pos: int) -> SpecParsed
    decreases ts.len() - pos, 4int,
{
    let first = spec_factor(ts, pos);
    match first.result {
        Err(_) => first,
        Ok(left) => {
            if pos <= first.next <= ts.len() {
                spec_term_rest(ts, first.next, left)
            } else {
                // parsing always advances within bounds (lemma_advance),
                // so this branch is never reached
                SpecParsed { result: Ok(left), next: first.next }
            }
        },
    }
}

/// `exponentiation := term ( '^' exponentiation )?`: the right operand
/// recurses into this rule itself, so `2^3^2` groups as `2^(3^2)`.
pub open spec fn spec_exponentiation(ts: Seq<SpecToken>, pos: int) -> SpecParsed
    decreases ts.len() - pos, 5int,
{
    let base = spec_term(ts, pos);
    match base.result {
        Err(_) => base,
        Ok(left) => {
            if pos <= base.next < ts.len() && ts[base.next] is Caret {
                let rest = spec_exponentiation(ts, base.next + 1);
                match rest.result {
                    Err(_) => rest,
                    Ok(right) => SpecParsed {
                        result: Ok(
                            SpecExpr::Binary {
                                left: Box::new(left),
                                operator: Operator::Exponentiate,
                                right: Box::new(right),
                            },
                        ),
                        next: rest.next,
                    },
                }
            } else {
                base
            }
        },
    }
}

/// The grammar's entry rule.
pub open spec fn spec_expression(ts: Seq<SpecToken>, pos: int) -> SpecParsed
    decreases ts.len() - pos, 6int,
{
    spec_exponentiation(ts, pos)
}

/// A successful parse consumes at least one token (the additive tail, at
/// least none) and never runs past the end of the stream.  `rank` selects
/// the grammar rule, from `primary` at 0 up to `expression` at 6, and
/// `acc` is the left operand an additive tail carries.
pub proof fn lemma_advance(ts: Seq<SpecToken>, pos: int, rank: int, acc: SpecExpr)
    ensures
        rank == 0 && spec_primary(ts, pos).result is Ok ==> pos < spec_primary(ts, pos).next
            <= ts.len(),
        rank == 1 && spec_unary(ts, pos).result is Ok ==> pos < spec_unary(ts, pos).next
            <= ts.len(),
        rank == 2 && spec_factor(ts, pos).result is Ok ==> pos < spec_factor(ts, pos).next
            <= ts.len(),
        rank == 3 && pos <= ts.len() && spec_term_rest(ts, pos, acc).result is Ok ==> pos
            <= spec_term_rest(ts, pos, acc).next <= ts.len(),
        rank == 4 && spec_term(ts, pos).result is Ok ==> pos < spec_term(ts, pos).next <= ts.len(),
        rank == 5 && spec_exponentiation(ts, pos).result is Ok ==> pos < spec_exponentiation(
            ts,
            pos,
        ).next <= ts.len(),
        rank == 6 && spec_expression(ts, pos).result is Ok ==> pos < spec_expression(ts, pos).next
            <= ts.len(),
    decreases ts.len() - pos, rank,
{
    if rank == 0 {
        if 0 <= pos < ts.len() && ts[pos] is LeftParentheses {
            lemma_advance(ts, pos + 1, 6, acc);
        }
    } else if rank == 1 {
        if 0 <= pos < ts.len() && ts[pos] is Minus {
            lemma_advance(ts, pos + 1, 1, acc);
        } else {
            lemma_advance(ts, pos, 0, acc);
        }
    } else if rank == 2 {
        lemma_advance(ts, pos, 1, acc);
        let first = spec_unary(ts, pos);
        if first.result is Ok && pos <= first.next < ts.len() && (ts[first.next] is Star
            || ts[first.next] is ForwardSlash) {
            lemma_advance(ts, first.next + 1, 2, acc);
        }
    } else if rank == 3 {
        if 0 <= pos < ts.len() && (ts[pos] is Plus || ts[pos] is Minus) {
            lemma_advance(ts, pos + 1, 2, acc);
            let op = if ts[pos] is Plus {
                Operator::Add
            } else {
                Operator::Subtract
            };
            let rhs = spec_factor(ts, pos + 1);
            if rhs.result is Ok && pos < rhs.next <= ts.len() {
                let joined = SpecExpr::Binary {
                    left: Box::new(acc),
                    operator: op,
                    right: Box::new(rhs.result->Ok_0),
                };
                lemma_advance(ts, rhs.next, 3, joined);
            }
        }
    } else if rank == 4 {
        lemma_advance(ts, pos, 2, acc);
        let first = spec_factor(ts, pos);
        if first.result is Ok && pos <= first.next <= ts.len() {
            lemma_advance(ts, first.next, 3, first.result->Ok_0);
        }
    } else if rank == 5 {
        lemma_advance(ts, pos, 4, acc);
        let base = spec_term(ts, pos);
        if base.result is Ok && pos <= base.next < ts.len() && ts[base.next] is Caret {
            lemma_advance(ts, base.next + 1, 5, acc);
        }
    } else if rank == 6 {
        lemma_advance(ts, pos, 5, acc);
    }
}

/// How an executable rule's outcome must relate to its rule's
/// specification: equal trees and final position on success, equal errors
/// on failure.
pub open spec fn follows_spec(
    r: Result<Expression, ParseError>,
    p: SpecParsed,
    pos_after: int,
) -> bool {
    match (r, p.result) {
        (Ok(e), Ok(se)) => e@ == se && pos_after == p.next,
        (Err(e), Err(se)) => e@ == se,
        _ => false,
    }
}

/// The parser: a cursor over a fixed stream of tokens, consumed strictly
/// left to right with one token of lookahead.
pub struct Parser {
    tokens: Vec<Token>,
    pos: usize,
}

impl Parser {
    /// The stream being parsed, as token shapes.
    pub closed spec fn toks(&self) -> Seq<SpecToken> {
        token_views(self.tokens@)
    }

    pub closed spec fn position(&self) -> int {
        self.pos as int
    }

    pub open spec fn wf(&self) -> bool {
        0 <= self.position() <= self.toks().len()
    }

    pub fn new(tokens: Vec<Token>) -> (r: Self)
        ensures
            r.wf(),
            r.toks() == token_views(tokens@),
            r.position() == 0,
    {
        Parser { tokens, pos: 0 }
    }

    /// A copy of the token at `i`, equal to it in every respect.
    fn token_at(&self, i: usize) -> (r: Token)
        requires
            i < self.tokens@.len(),
        ensures
            r == self.tokens@[i as int],
            r@ == self.toks()[i as int],
    {
        match &self.tokens[i] {
            Token::Literal(s) => Token::Literal(s.clone()),
            Token::Plus => Token::Plus,
            Token::Minus => Token::Minus,
            Token::Star => Token::Star,
            Token::ForwardSlash => Token::ForwardSlash,
            Token::Caret => Token::Caret,
            Token::LeftParentheses => Token::LeftParentheses,
            Token::RightParentheses => Token::RightParentheses,
        }
    }

    /// The token under the cursor, without consuming it.
    fn peek(&self) -> (r: Option<Token>)
        requires
            self.wf(),
        ensures
            match r {
                Some(t) => {
                    &&& self.position() < self.toks().len()
                    &&& self.position() < self.tokens@.len() <= usize::MAX
                    &&& t@ == self.toks()[self.position()]
                },
                None => self.position() >= self.toks().len(),
            },
    {
        if self.pos < self.tokens.len() {
            Some(self.token_at(self.pos))
        } else {
            None
        }
    }

    fn expression(&mut self) -> (r: Result<Expression, ParseError>)
        requires
            old(self).wf(),
        ensures
            final(self).wf(),
            final(self).toks() == old(self).toks(),
            follows_spec(
                r,
                spec_expression(old(self).toks(), old(self).position()),
                final(self).position(),
            ),
        decreases self.toks().len() - self.position(), 6int,
    {
        self.exponentiation()
    }

    fn exponentiation(&mut self) -> (r: Result<Expression, ParseError>)
        requires
            old(self).wf(),
        ensures
            final(self).wf(),
            final(self).toks() == old(self).toks(),
            follows_spec(
                r,
                spec_exponentiation(old(self).toks(), old(self).position()),
                final(self).position(),
            ),
        decreases self.toks().len() - self.position(), 5int,
    {
        let ghost ts = self.toks();
        let ghost pos0 = self.position();
        let left = match self.term() {
            Ok(e) => e,
            Err(e) => return Err(e),
        };
        proof {
            lemma_advance(ts, pos0, 4, arbitrary());
        }
        if let Some(Token::Caret) = self.peek() {
            let t = self.token_at(self.pos);
            self.pos = self.pos + 1;
            let operator = match Operator::try_from(t) {
                Ok(op) => op,
                Err(e) => return Err(e),
            };
            let right = match self.exponentiation() {
                Ok(e) => e,
                Err(e) => return Err(e),
            };
            Ok(Expression::Binary { left: Box::new(left), operator, right: Box::new(right) })
        } else {
            Ok(left)
        }
    }

    fn term(&mut self) -> (r: Result<Expression, ParseError>)
        requires
            old(self).wf(),
        ensures
            final(self).wf(),
            final(self).toks() == old(self).toks(),
            follows_spec(
                r,
                spec_term(old(self).toks(), old(self).position()),
                final(self).position(),
            ),
        decreases self.toks().len() - self.position(), 4int,
    {
        let ghost ts = self.toks();
        let ghost pos0 = self.position();
        let mut expression = match self.factor() {
            Ok(e) => e,
            Err(e) => return Err(e),
        };
        proof {
            lemma_advance(ts, pos0, 2, arbitrary());
        }
        let ghost target = spec_term_rest(ts, self.position(), expression@);
        loop
            invariant
                self.wf(),
                ts == old(self).toks(),
                pos0 == old(self).position(),
                self.toks() == ts,
                pos0 < self.position() <= ts.len(),
                spec_term_rest(ts, self.position(), expression@) == target,
                spec_term(ts, pos0) == target,
            decreases ts.len() - self.position(),
        {
            let ghost cur = self.position();
            let advance = match self.peek() {
                Some(Token::Plus) => true,
                Some(Token::Minus) => true,
                _ => false,
            };
            if !advance {
                return Ok(expression);
            }
            let t = self.token_at(self.pos);
            self.pos = self.pos + 1;
            let operator = match Operator::try_from(t) {
                Ok(op) => op,
                Err(e) => return Err(e),
            };
            let right = match self.factor() {
                Ok(e) => e,
                Err(e) => return Err(e),
            };
            proof {
                lemma_advance(ts, cur + 1, 2, arbitrary());
            }
            expression = Expression::Binary {
                left: Box::new(expression),
                operator,
                right: Box::new(right),
            };
        }
    }

    fn factor(&mut self) -> (r: Result<Expression, ParseError>)
        requires
            old(self).wf(),
        ensures
            final(self).wf(),
            final(self).toks() == old(self).toks(),
            follows_spec(
                r,
                spec_factor(old(self).toks(), old(self).position()),
                final(self).position(),
            ),
        decreases self.toks().len() - self.position(), 2int,
    {
        let ghost ts = self.toks();
        let ghost pos0 = self.position();
        let left = match self.unary() {
            Ok(e) => e,
            Err(e) => return Err(e),
        };
        proof {
            lemma_advance(ts, pos0, 1, arbitrary());
        }
        let advance = match self.peek() {
            Some(Token::Star) => true,
            Some(Token::ForwardSlash) => true,
            _ => false,
        };
        if advance {
            let t = self.token_at(self.pos);
            self.pos = self.pos + 1;
            let operator = match Operator::try_from(t) {
                Ok(op) => op,
                Err(e) => return Err(e),
            };
            let right = match self.factor() {
                Ok(e) => e,
                Err(e) => return Err(e),
            };
            Ok(Expression::Binary { left: Box::new(left), operator, right: Box::new(right) })
        } else {
            Ok(left)
        }
    }

    fn unary(&mut self) -> (r: Result<Expression, ParseError>)
        requires
            old(self).wf(),
        ensures
            final(self).wf(),
            final(self).toks() == old(self).toks(),
            follows_spec(
                r,
                spec_unary(old(self).toks(), old(self).position()),
                final(self).position(),
            ),
        decreases self.toks().len() - self.position(), 1int,
    {
        if let Some(Token::Minus) = self.peek() {
            let t = self.token_at(self.pos);
            self.pos = self.pos + 1;
            let operator = match Operator::try_from(t) {
                Ok(op) => op,
                Err(e) => return Err(e),
            };
            let right = match self.unary() {
                Ok(e) => e,
                Err(e) => return Err(e),
            };
            Ok(Expression::Unary { right: Box::new(right), operator })
        } else {
            self.primary()
        }
    }

    fn primary(&mut self) -> (r: Result<Expression, ParseError>)
        requires
            old(self).wf(),
        ensures
            final(self).wf(),
            final(self).toks() == old(self).toks(),
            follows_spec(
                r,
                spec_primary(old(self).toks(), old(self).position()),
                final(self).position(),
            ),
        decreases self.toks().len() - self.position(), 0int,
    {
        if self.pos >= self.tokens.len() {
            return Err(ParseError::UnexpectedEndOfInput);
        }
        let t = self.token_at(self.pos);
        self.pos = self.pos + 1;
        match t {
            Token::Literal(text) => Ok(Expression::Literal(text)),
            Token::LeftParentheses => {
                let body = match self.expression() {
                    Ok(e) => e,
                    Err(e) => return Err(e),
                };
                if self.pos < self.tokens.len() {
                    let close = self.token_at(self.pos);
                    self.pos = self.pos + 1;
                    match close {
                        Token::RightParentheses => Ok(Expression::Grouping(Box::new(body))),
                        _ => Err(ParseError::MissingClosingParenthesis),
                    }
                } else {
                    Err(ParseError::MissingClosingParenthesis)
                }
            },
            other => Err(ParseError::UnexpectedToken(other)),
        }
    }

    /// One complete expression parsed from the remaining tokens, or `None`
    /// once they are exhausted.
    pub fn next(&mut self) -> (r: Option<Result<Expression, ParseError>>)
        requires
            old(self).wf(),
        ensures
            final(self).wf(),
            final(self).toks() == old(self).toks(),
            match r {
                None => old(self).position() >= old(self).toks().len() && *final(self) == *old(
                    self,
                ),
                Some(res) => old(self).position() < old(self).toks().len() && follows_spec(
                    res,
                    spec_expression(old(self).toks(), old(self).position()),
                    final(self).position(),
                ),
            },
    {
        if self.pos < self.tokens.len() {
            Some(self.expression())
        } else {
            None
        }
    }
}

/// Parsing the whole stream: one expression after another until the tokens
/// are exhausted, or the first error.
pub open spec fn spec_parse_program(ts: Seq<SpecToken>, pos: int) -> Result<
    Seq<SpecExpr>,
    SpecParseError,
>
    decreases ts.len() - pos,
{
    if !(0 <= pos < ts.len()) {
        Ok(Seq::empty())
    } else {
        let p = spec_expression(ts, pos);
        match p.result {
            Err(e) => Err(e),
            Ok(e) => if pos < p.next <= ts.len() {
                match spec_parse_program(ts, p.next) {
                    Ok(rest) => Ok(seq![e] + rest),
                    Err(err) => Err(err),
                }
            } else {
                // parsing always advances within bounds (lemma_advance),
                // so this branch is never reached
                Ok(seq![e])
            },
        }
    }
}

/// Parses the whole token stream eagerly: every expression, in order, or
/// the first error.
pub fn parse_program(tokens: Vec<Token>) -> (r: Result<Vec<Expression>, ParseError>)
    ensures
        match (r, spec_parse_program(token_views(tokens@), 0)) {
            (Ok(es), Ok(ses)) => expr_views(es@) == ses,
            (Err(e), Err(se)) => e@ == se,
            _ => false,
        },
{
    let ghost ts = token_views(tokens@);
    let mut parser = Parser::new(tokens);
    let mut expressions: Vec<Expression> = Vec::new();
    loop
        invariant
            parser.wf(),
            parser.toks() == ts,
            ts == token_views(tokens@),
            match spec_parse_program(ts, parser.position()) {
                Ok(rest) => spec_parse_program(ts, 0) == Ok::<Seq<SpecExpr>, SpecParseError>(
                    expr_views(expressions@) + rest,
                ),
                Err(e) => spec_parse_program(ts, 0) == Err::<Seq<SpecExpr>, SpecParseError>(e),
            },
        decreases ts.len() - parser.position(),
    {
        let ghost cur = parser.position();
        let ghost seen = expr_views(expressions@);
        match parser.next() {
            None => {
                proof {
                    assert(seen + Seq::<SpecExpr>::empty() =~= seen);
                }
                return Ok(expressions);
            },
            Some(Ok(e)) => {
                proof {
                    lemma_advance(ts, cur, 6, arbitrary());
                }
                expressions.push(e);
                proof {
                    assert(expr_views(expressions@) =~= seen + seq![e@]);
                    let p = spec_expression(ts, cur);
                    match spec_parse_program(ts, p.next) {
                        Ok(rest2) => {
                            assert(seen + (seq![e@] + rest2) =~= (seen + seq![e@]) + rest2);
                        },
                        Err(_) => {},
                    }
                }
            },
            Some(Err(err)) => {
                return Err(err);
            },
        }
    }
}

} // verus!
