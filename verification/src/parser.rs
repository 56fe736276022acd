//! Builds an expression tree from a token sequence.
//!
//! The grammar climbs from the loosest binding to the tightest:
//! assignment, additive (`+` `-`), multiplicative (`*` `/` `%`), unary
//! minus, power (`^`, right-associative, binding tighter than unary
//! minus), and primary terms: numeric literals, constants, identifiers,
//! function calls with parenthesized comma-separated arguments,
//! parenthesized expressions, `|expr|` absolute value, and a numeric
//! literal directly followed by a parenthesized expression (implicit
//! multiplication).

use vstd::prelude::*;

use crate::lexer::{Constant, Function, Operator, Span, SpannedToken, STokV, Token, TokenV};
use crate::lexer::toks_view;

verus! {

/// What a parse error reports.
#[derive(Debug, Clone, Copy, PartialEq, Eq, Structural)]
pub enum ParseErrorCode {
    UnexpectedToken,
    UnexpectedEOF,
    ExpectedClosingDelimiter,
}

/// A parse failure: a code and the source range of the offending token,
/// or an empty range one past the last token at an unexpected end.
#[derive(Debug, Clone, Copy, PartialEq, Eq, Structural)]
pub struct ParseError {
    pub code: ParseErrorCode,
    pub span: Span,
}

/// The name a call refers to: a built-in function, or a user-defined
/// one held in the environment.
#[derive(Debug)]
pub enum Callee {
    Builtin(Function),
    User(String),
}

/// An expression tree. Each node owns its children.
#[derive(Debug)]
pub enum Expr {
    NumberLiteral(String),
    Constant(Constant),
    Identifier(String),
    Negate(Box<Expr>),
    BinaryOp(Operator, Box<Expr>, Box<Expr>),
    Power(Box<Expr>, Box<Expr>),
    FunctionCall(Callee, Vec<Expr>),
    Assignment(String, Box<Expr>),
}

/// The mathematical image of a callee.
pub enum CalleeV {
    Builtin(Function),
    User(Seq<char>),
}

/// The mathematical image of an expression tree.
pub enum ExprV {
    NumberLiteral(Seq<char>),
    Constant(Constant),
    Identifier(Seq<char>),
    Negate(Box<ExprV>),
    BinaryOp(Operator, Box<ExprV>, Box<ExprV>),
    Power(Box<ExprV>, Box<ExprV>),
    FunctionCall(CalleeV, Seq<ExprV>),
    Assignment(Seq<char>, Box<ExprV>),
}

impl View for Callee {
    type V = CalleeV;

    open spec fn view(&self) -> CalleeV {
        match self {
            Callee::Builtin(f) => CalleeV::Builtin(*f),
            Callee::User(name) => CalleeV::User(name@),
        }
    }
}

/// The mathematical image of an expression.
pub open spec fn expr_view(x: Expr) -> ExprV
    decreases x,
{
    match x {
        Expr::NumberLiteral(t) => ExprV::NumberLiteral(t@),
        Expr::Constant(c) => ExprV::Constant(c),
        Expr::Identifier(t) => ExprV::Identifier(t@),
        Expr::Negate(e) => ExprV::Negate(Box::new(expr_view(*e))),
        Expr::BinaryOp(op, l, r) => ExprV::BinaryOp(
            op,
            Box::new(expr_view(*l)),
            Box::new(expr_view(*r)),
        ),
        Expr::Power(l, r) => ExprV::Power(Box::new(expr_view(*l)), Box::new(expr_view(*r))),
        Expr::FunctionCall(c, args) => ExprV::FunctionCall(c@, exprs_view(args@)),
        Expr::Assignment(name, e) => ExprV::Assignment(name@, Box::new(expr_view(*e))),
    }
}

/// The views of a sequence of expressions.
pub open spec fn exprs_view(v: Seq<Expr>) -> Seq<ExprV>
    decreases v,
{
    if v.len() == 0 {
        Seq::empty()
    } else {
        seq![expr_view(v[0])] + exprs_view(v.skip(1))
    }
}

impl View for Expr {
    type V = ExprV;

    open spec fn view(&self) -> ExprV {
        expr_view(*self)
    }
}

/// The exec span a spec token carries.
pub open spec fn tok_span(t: STokV) -> Span {
    Span { start: t.start as usize, end: t.end as usize }
}

/// The failure reported at an unexpected end of the tokens: an empty
/// range at the end of the last token.
pub open spec fn eof_err(ts: Seq<STokV>) -> ParseError {
    if ts.len() > 0 {
        ParseError {
            code: ParseErrorCode::UnexpectedEOF,
            span: Span {
                start: ts[ts.len() - 1].end as usize,
                end: ts[ts.len() - 1].end as usize,
            },
        }
    } else {
        ParseError { code: ParseErrorCode::UnexpectedEOF, span: Span { start: 0, end: 0 } }
    }
}

/// The failure reported where a closing delimiter is missing.
pub open spec fn close_err(ts: Seq<STokV>, pos: int) -> ParseError {
    if 0 <= pos < ts.len() {
        ParseError { code: ParseErrorCode::ExpectedClosingDelimiter, span: tok_span(ts[pos]) }
    } else {
        ParseError { code: ParseErrorCode::ExpectedClosingDelimiter, span: eof_err(ts).span }
    }
}

/// A position bound used by the termination measure of the mutually
/// recursive grammar functions; parsing always moves forward, so the
/// bound never binds.
pub open spec fn bump(p: int, pos: int) -> int {
    if p > pos {
        p
    } else {
        pos + 1
    }
}

/// The outcome of one grammar tier: the parsed tree and the position
/// after it.
pub type PRes = Result<(ExprV, int), ParseError>;

/// Primary terms.
pub open spec fn sp_primary(ts: Seq<STokV>, pos: int) -> PRes
    decreases vstd::math::max(ts.len() - pos, 0), 0int,
{
    if !(0 <= pos < ts.len()) {
        Err(eof_err(ts))
    } else {
        match ts[pos].token {
            TokenV::Number(t) => {
                if pos + 1 < ts.len() && ts[pos + 1].token == TokenV::Operator(Operator::LParen) {
                    match sp_assignment(ts, pos + 2) {
                        Ok((e, p0)) => {
                            let p = bump(p0, pos + 1);
                            if p < ts.len() && ts[p].token == TokenV::Operator(Operator::RParen) {
                                Ok(
                                    (
                                        ExprV::BinaryOp(
                                            Operator::Star,
                                            Box::new(ExprV::NumberLiteral(t)),
                                            Box::new(e),
                                        ),
                                        p + 1,
                                    ),
                                )
                            } else {
                                Err(close_err(ts, p))
                            }
                        },
                        Err(e) => Err(e),
                    }
                } else {
                    Ok((ExprV::NumberLiteral(t), pos + 1))
                }
            },
            TokenV::Constant(c) => Ok((ExprV::Constant(c), pos + 1)),
            TokenV::Identifier(name) => {
                if pos + 1 < ts.len() && ts[pos + 1].token == TokenV::Operator(Operator::LParen) {
                    match sp_args(ts, pos + 2) {
                        Ok((args, p0)) => {
                            let p = bump(p0, pos + 1);
                            if p < ts.len() && ts[p].token == TokenV::Operator(Operator::RParen) {
                                Ok((ExprV::FunctionCall(CalleeV::User(name), args), p + 1))
                            } else {
                                Err(close_err(ts, p))
                            }
                        },
                        Err(e) => Err(e),
                    }
                } else {
                    Ok((ExprV::Identifier(name), pos + 1))
                }
            },
            TokenV::Function(f) => {
                if pos + 1 < ts.len() && ts[pos + 1].token == TokenV::Operator(Operator::LParen) {
                    match sp_args(ts, pos + 2) {
                        Ok((args, p0)) => {
                            let p = bump(p0, pos + 1);
                            if p < ts.len() && ts[p].token == TokenV::Operator(Operator::RParen) {
                                Ok((ExprV::FunctionCall(CalleeV::Builtin(f), args), p + 1))
                            } else {
                                Err(close_err(ts, p))
                            }
                        },
                        Err(e) => Err(e),
                    }
                } else if pos + 1 < ts.len() {
                    Err(
                        ParseError {
                            code: ParseErrorCode::UnexpectedToken,
                            span: tok_span(ts[pos + 1]),
                        },
                    )
                } else {
                    Err(eof_err(ts))
                }
            },
            TokenV::Operator(op) => {
                if op == Operator::LParen {
                    match sp_assignment(ts, pos + 1) {
                        Ok((e, p0)) => {
                            let p = bump(p0, pos);
                            if p < ts.len() && ts[p].token == TokenV::Operator(Operator::RParen) {
                                Ok((e, p + 1))
                            } else {
                                Err(close_err(ts, p))
                            }
                        },
                        Err(e) => Err(e),
                    }
                } else if op == Operator::Pipe {
                    match sp_assignment(ts, pos + 1) {
                        Ok((e, p0)) => {
                            let p = bump(p0, pos);
                            if p < ts.len() && ts[p].token == TokenV::Operator(Operator::Pipe) {
                                Ok(
                                    (
                                        ExprV::FunctionCall(
                                            CalleeV::Builtin(Function::Abs),
                                            seq![e],
                                        ),
                                        p + 1,
                                    ),
                                )
                            } else {
                                Err(close_err(ts, p))
                            }
                        },
                        Err(e) => Err(e),
                    }
                } else {
                    Err(
                        ParseError {
                            code: ParseErrorCode::UnexpectedToken,
                            span: tok_span(ts[pos]),
                        },
                    )
                }
            },
        }
    }
}

/// Power, right-associative, binding tighter than unary minus.
pub open spec fn sp_power(ts: Seq<STokV>, pos: int) -> PRes
    decreases vstd::math::max(ts.len() - pos, 0), 1int,
{
    match sp_primary(ts, pos) {
        Ok((e, p0)) => {
            let p = bump(p0, pos);
            if p < ts.len() && ts[p].token == TokenV::Operator(Operator::Caret) {
                match sp_unary(ts, p + 1) {
                    Ok((r, p2)) => Ok((ExprV::Power(Box::new(e), Box::new(r)), p2)),
                    Err(err) => Err(err),
                }
            } else {
                Ok((e, p))
            }
        },
        Err(err) => Err(err),
    }
}

/// Unary minus.
pub open spec fn sp_unary(ts: Seq<STokV>, pos: int) -> PRes
    decreases vstd::math::max(ts.len() - pos, 0), 2int,
{
    if 0 <= pos < ts.len() && ts[pos].token == TokenV::Operator(Operator::Minus) {
        match sp_unary(ts, pos + 1) {
            Ok((e, p)) => Ok((ExprV::Negate(Box::new(e)), p)),
            Err(err) => Err(err),
        }
    } else {
        sp_power(ts, pos)
    }
}

/// The remaining `*` `/` `%` chain after a first factor,
/// left-associative.
pub open spec fn sp_mul_rest(ts: Seq<STokV>, acc: ExprV, pos: int) -> PRes
    decreases vstd::math::max(ts.len() - pos, 0), 3int,
{
    if 0 <= pos < ts.len() && (ts[pos].token == TokenV::Operator(Operator::Star) || ts[pos].token
        == TokenV::Operator(Operator::Slash) || ts[pos].token == TokenV::Operator(
        Operator::Percent,
    )) {
        let op = ts[pos].token->Operator_0;
        match sp_unary(ts, pos + 1) {
            Ok((r, p2)) => sp_mul_rest(
                ts,
                ExprV::BinaryOp(op, Box::new(acc), Box::new(r)),
                bump(p2, pos),
            ),
            Err(err) => Err(err),
        }
    } else {
        Ok((acc, pos))
    }
}

/// Multiplicative expressions.
pub open spec fn sp_multiplicative(ts: Seq<STokV>, pos: int) -> PRes
    decreases vstd::math::max(ts.len() - pos, 0), 4int,
{
    match sp_unary(ts, pos) {
        Ok((e, p)) => sp_mul_rest(ts, e, bump(p, pos)),
        Err(err) => Err(err),
    }
}

/// The remaining `+` `-` chain after a first term, left-associative.
pub open spec fn sp_add_rest(ts: Seq<STokV>, acc: ExprV, pos: int) -> PRes
    decreases vstd::math::max(ts.len() - pos, 0), 5int,
{
    if 0 <= pos < ts.len() && (ts[pos].token == TokenV::Operator(Operator::Plus) || ts[pos].token
        == TokenV::Operator(Operator::Minus)) {
        let op = ts[pos].token->Operator_0;
        match sp_multiplicative(ts, pos + 1) {
            Ok((r, p2)) => sp_add_rest(
                ts,
                ExprV::BinaryOp(op, Box::new(acc), Box::new(r)),
                bump(p2, pos),
            ),
            Err(err) => Err(err),
        }
    } else {
        Ok((acc, pos))
    }
}

/// Additive expressions.
pub open spec fn sp_additive(ts: Seq<STokV>, pos: int) -> PRes
    decreases vstd::math::max(ts.len() - pos, 0), 6int,
{
    match sp_multiplicative(ts, pos) {
        Ok((e, p)) => sp_add_rest(ts, e, bump(p, pos)),
        Err(err) => Err(err),
    }
}

/// Assignment, the loosest tier; its right side is parsed in full
/// first.
pub open spec fn sp_assignment(ts: Seq<STokV>, pos: int) -> PRes
    decreases vstd::math::max(ts.len() - pos, 0), 7int,
{
    if 0 <= pos && pos + 1 < ts.len() && ts[pos].token is Identifier && ts[pos + 1].token
        == TokenV::Operator(Operator::Equals) {
        let name = ts[pos].token->Identifier_0;
        match sp_assignment(ts, pos + 2) {
            Ok((e, p)) => Ok((ExprV::Assignment(name, Box::new(e)), p)),
            Err(err) => Err(err),
        }
    } else {
        sp_additive(ts, pos)
    }
}

/// A comma-separated argument list.
pub open spec fn sp_args(ts: Seq<STokV>, pos: int) -> Result<(Seq<ExprV>, int), ParseError>
    decreases vstd::math::max(ts.len() - pos, 0), 8int,
{
    match sp_assignment(ts, pos) {
        Ok((e, p0)) => {
            let p = bump(p0, pos);
            if p < ts.len() && ts[p].token == TokenV::Operator(Operator::Comma) {
                match sp_args(ts, p + 1) {
                    Ok((rest, p2)) => Ok((seq![e] + rest, p2)),
                    Err(err) => Err(err),
                }
            } else {
                Ok((seq![e], p))
            }
        },
        Err(err) => Err(err),
    }
}

/// The outcome of parsing a whole token sequence: the tree of the one
/// expression the tokens spell, or the first failure. Tokens left over
/// after the expression are an `UnexpectedToken` failure.
pub open spec fn sp_parse(ts: Seq<STokV>) -> Result<ExprV, ParseError> {
    match sp_assignment(ts, 0) {
        Ok((e, p)) => {
            if p == ts.len() {
                Ok(e)
            } else if 0 <= p < ts.len() {
                Err(ParseError { code: ParseErrorCode::UnexpectedToken, span: tok_span(ts[p]) })
            } else {
                Err(eof_err(ts))
            }
        },
        Err(err) => Err(err),
    }
}

/// The exec outcome of a grammar tier agrees with its spec tier and
/// moved forward.
pub open spec fn tier_matches(
    spec_r: PRes,
    r: Result<(Expr, usize), ParseError>,
    pos: int,
    len: int,
) -> bool {
    match r {
        Ok((e, p)) => spec_r == Ok::<(ExprV, int), ParseError>((e@, p as int)) && pos < p <= len,
        Err(pe) => spec_r == Err::<(ExprV, int), ParseError>(pe),
    }
}

/// The exec outcome of the argument-list tier agrees with its spec
/// tier and moved forward.
pub open spec fn args_matches(
    spec_r: Result<(Seq<ExprV>, int), ParseError>,
    r: Result<(Vec<Expr>, usize), ParseError>,
    pos: int,
    len: int,
) -> bool {
    match r {
        Ok((v, p)) => spec_r == Ok::<(Seq<ExprV>, int), ParseError>((exprs_view(v@), p as int))
            && pos < p <= len,
        Err(pe) => spec_r == Err::<(Seq<ExprV>, int), ParseError>(pe),
    }
}

/// The view of an expression sequence is its pointwise view.
pub proof fn lemma_exprs_view_index(s: Seq<Expr>)
    ensures
        exprs_view(s).len() == s.len(),
        forall|i: int| 0 <= i < s.len() ==> exprs_view(s)[i] == expr_view(s[i]),
    decreases s,
{
    if s.len() > 0 {
        lemma_exprs_view_index(s.skip(1));
        assert forall|i: int| 0 <= i < s.len() implies exprs_view(s)[i] == expr_view(s[i]) by {
            if i > 0 {
                assert(exprs_view(s)[i] == exprs_view(s.skip(1))[i - 1]);
                assert(s.skip(1)[i - 1] == s[i]);
            }
        }
    }
}

/// Whether the token is exactly this operator symbol.
fn is_op(tok: &Token, op: Operator) -> (b: bool)
    ensures
        b == (tok@ == TokenV::Operator(op)),
{
    match tok {
        Token::Operator(o) => *o == op,
        _ => false,
    }
}

/// The failure reported at an unexpected end of the tokens.
fn eof_error(tokens: &Vec<SpannedToken>) -> (e: ParseError)
    ensures
        e == eof_err(toks_view(tokens@)),
{
    if tokens.len() > 0 {
        let end = tokens[tokens.len() - 1].span.end;
        ParseError { code: ParseErrorCode::UnexpectedEOF, span: Span { start: end, end } }
    } else {
        ParseError { code: ParseErrorCode::UnexpectedEOF, span: Span { start: 0, end: 0 } }
    }
}

/// The failure reported where a closing delimiter is missing.
fn close_error(tokens: &Vec<SpannedToken>, pos: usize) -> (e: ParseError)
    ensures
        e == close_err(toks_view(tokens@), pos as int),
{
    if pos < tokens.len() {
        ParseError { code: ParseErrorCode::ExpectedClosingDelimiter, span: tokens[pos].span }
    } else {
        let base = eof_error(tokens);
        ParseError { code: ParseErrorCode::ExpectedClosingDelimiter, span: base.span }
    }
}

/// Parses a primary term.
#[verifier::rlimit(100)]
fn parse_primary(tokens: &Vec<SpannedToken>, pos: usize) -> (r: Result<(Expr, usize), ParseError>)
    ensures
        tier_matches(
            sp_primary(toks_view(tokens@), pos as int),
            r,
            pos as int,
            tokens@.len() as int,
        ),
    decreases vstd::math::max(tokens@.len() - pos, 0), 0int,
{
    let ghost ts = toks_view(tokens@);
    if pos >= tokens.len() {
        return Err(eof_error(tokens));
    }
    match &tokens[pos].token {
        Token::Number(t) => {
            if pos + 1 < tokens.len() && is_op(&tokens[pos + 1].token, Operator::LParen) {
                match parse_assignment(tokens, pos + 2) {
                    Ok((e, p)) => {
                        proof {
                            assert(bump(p as int, pos + 1) == p as int);
                        }
                        if p < tokens.len() && is_op(&tokens[p].token, Operator::RParen) {
                            let lit = Expr::NumberLiteral(t.clone());
                            proof {
                                assert(lit@ == ExprV::NumberLiteral(t@));
                            }
                            let result = Expr::BinaryOp(Operator::Star, Box::new(lit), Box::new(e));
                            proof {
                                assert(result@ == ExprV::BinaryOp(
                                    Operator::Star,
                                    Box::new(ExprV::NumberLiteral(t@)),
                                    Box::new(e@),
                                ));
                            }
                            Ok((result, p + 1))
                        } else {
                            Err(close_error(tokens, p))
                        }
                    },
                    Err(e) => Err(e),
                }
            } else {
                Ok((Expr::NumberLiteral(t.clone()), pos + 1))
            }
        },
        Token::Constant(c) => Ok((Expr::Constant(*c), pos + 1)),
        Token::Identifier(name) => {
            if pos + 1 < tokens.len() && is_op(&tokens[pos + 1].token, Operator::LParen) {
                match parse_args(tokens, pos + 2) {
                    Ok((args, p)) => {
                        proof {
                            assert(bump(p as int, pos + 1) == p as int);
                        }
                        if p < tokens.len() && is_op(&tokens[p].token, Operator::RParen) {
                            Ok((Expr::FunctionCall(Callee::User(name.clone()), args), p + 1))
                        } else {
                            Err(close_error(tokens, p))
                        }
                    },
                    Err(e) => Err(e),
                }
            } else {
                Ok((Expr::Identifier(name.clone()), pos + 1))
            }
        },
        Token::Function(f) => {
            if pos + 1 < tokens.len() && is_op(&tokens[pos + 1].token, Operator::LParen) {
                match parse_args(tokens, pos + 2) {
                    Ok((args, p)) => {
                        proof {
                            assert(bump(p as int, pos + 1) == p as int);
                        }
                        if p < tokens.len() && is_op(&tokens[p].token, Operator::RParen) {
                            Ok((Expr::FunctionCall(Callee::Builtin(*f), args), p + 1))
                        } else {
                            Err(close_error(tokens, p))
                        }
                    },
                    Err(e) => Err(e),
                }
            } else if pos + 1 < tokens.len() {
                Err(
                    ParseError {
                        code: ParseErrorCode::UnexpectedToken,
                        span: tokens[pos + 1].span,
                    },
                )
            } else {
                Err(eof_error(tokens))
            }
        },
        Token::Operator(op) => {
            if *op == Operator::LParen {
                match parse_assignment(tokens, pos + 1) {
                    Ok((e, p)) => {
                        proof {
                            assert(bump(p as int, pos as int) == p as int);
                        }
                        if p < tokens.len() && is_op(&tokens[p].token, Operator::RParen) {
                            Ok((e, p + 1))
                        } else {
                            Err(close_error(tokens, p))
                        }
                    },
                    Err(e) => Err(e),
                }
            } else if *op == Operator::Pipe {
                match parse_assignment(tokens, pos + 1) {
                    Ok((e, p)) => {
                        proof {
                            assert(bump(p as int, pos as int) == p as int);
                        }
                        if p < tokens.len() && is_op(&tokens[p].token, Operator::Pipe) {
                            let args = vec![e];
                            proof {
                                lemma_exprs_view_index(args@);
                                assert(exprs_view(args@) =~= seq![expr_view(args@[0])]);
                            }
                            Ok((Expr::FunctionCall(Callee::Builtin(Function::Abs), args), p + 1))
                        } else {
                            Err(close_error(tokens, p))
                        }
                    },
                    Err(e) => Err(e),
                }
            } else {
                Err(ParseError { code: ParseErrorCode::UnexpectedToken, span: tokens[pos].span })
            }
        },
    }
}

/// Parses a power expression.
fn parse_power(tokens: &Vec<SpannedToken>, pos: usize) -> (r: Result<(Expr, usize), ParseError>)
    ensures
        tier_matches(sp_power(toks_view(tokens@), pos as int), r, pos as int, tokens@.len() as int),
    decreases vstd::math::max(tokens@.len() - pos, 0), 1int,
{
    match parse_primary(tokens, pos) {
        Ok((e, p)) => {
            proof {
                assert(bump(p as int, pos as int) == p as int);
            }
            if p < tokens.len() && is_op(&tokens[p].token, Operator::Caret) {
                match parse_unary(tokens, p + 1) {
                    Ok((rhs, p2)) => Ok((Expr::Power(Box::new(e), Box::new(rhs)), p2)),
                    Err(err) => Err(err),
                }
            } else {
                Ok((e, p))
            }
        },
        Err(err) => Err(err),
    }
}

/// Parses a unary-minus expression.
fn parse_unary(tokens: &Vec<SpannedToken>, pos: usize) -> (r: Result<(Expr, usize), ParseError>)
    ensures
        tier_matches(sp_unary(toks_view(tokens@), pos as int), r, pos as int, tokens@.len() as int),
    decreases vstd::math::max(tokens@.len() - pos, 0), 2int,
{
    if pos < tokens.len() && is_op(&tokens[pos].token, Operator::Minus) {
        match parse_unary(tokens, pos + 1) {
            Ok((e, p)) => Ok((Expr::Negate(Box::new(e)), p)),
            Err(err) => Err(err),
        }
    } else {
        parse_power(tokens, pos)
    }
}

/// Parses a multiplicative chain.
fn parse_multiplicative(tokens: &Vec<SpannedToken>, pos: usize) -> (r: Result<
    (Expr, usize),
    ParseError,
>)
    ensures
        tier_matches(
            sp_multiplicative(toks_view(tokens@), pos as int),
            r,
            pos as int,
            tokens@.len() as int,
        ),
    decreases vstd::math::max(tokens@.len() - pos, 0), 4int,
{
    let ghost ts = toks_view(tokens@);
    let mut acc: Expr;
    let mut p: usize;
    match parse_unary(tokens, pos) {
        Ok((e, p1)) => {
            acc = e;
            p = p1;
        },
        Err(err) => {
            return Err(err);
        },
    }
    proof {
        assert(bump(p as int, pos as int) == p as int);
    }
    loop
        invariant
            ts == toks_view(tokens@),
            pos < p <= tokens@.len(),
            sp_multiplicative(ts, pos as int) == sp_mul_rest(ts, acc@, p as int),
        decreases tokens@.len() - p,
    {
        if p < tokens.len() && (is_op(&tokens[p].token, Operator::Star) || is_op(
            &tokens[p].token,
            Operator::Slash,
        ) || is_op(&tokens[p].token, Operator::Percent)) {
            let op = match &tokens[p].token {
                Token::Operator(o) => *o,
                _ => Operator::Star,
            };
            match parse_unary(tokens, p + 1) {
                Ok((rhs, p2)) => {
                    let prev = acc;
                    acc = Expr::BinaryOp(op, Box::new(prev), Box::new(rhs));
                    proof {
                        assert(bump(p2 as int, p as int) == p2 as int);
                    }
                    p = p2;
                },
                Err(err) => {
                    return Err(err);
                },
            }
        } else {
            return Ok((acc, p));
        }
    }
}

/// Parses an additive chain.
fn parse_additive(tokens: &Vec<SpannedToken>, pos: usize) -> (r: Result<
    (Expr, usize),
    ParseError,
>)
    ensures
        tier_matches(
            sp_additive(toks_view(tokens@), pos as int),
            r,
            pos as int,
            tokens@.len() as int,
        ),
    decreases vstd::math::max(tokens@.len() - pos, 0), 6int,
{
    let ghost ts = toks_view(tokens@);
    let mut acc: Expr;
    let mut p: usize;
    match parse_multiplicative(tokens, pos) {
        Ok((e, p1)) => {
            acc = e;
            p = p1;
        },
        Err(err) => {
            return Err(err);
        },
    }
    proof {
        assert(bump(p as int, pos as int) == p as int);
    }
    loop
        invariant
            ts == toks_view(tokens@),
            pos < p <= tokens@.len(),
            sp_additive(ts, pos as int) == sp_add_rest(ts, acc@, p as int),
        decreases tokens@.len() - p,
    {
        if p < tokens.len() && (is_op(&tokens[p].token, Operator::Plus) || is_op(
            &tokens[p].token,
            Operator::Minus,
        )) {
            let op = match &tokens[p].token {
                Token::Operator(o) => *o,
                _ => Operator::Plus,
            };
            match parse_multiplicative(tokens, p + 1) {
                Ok((rhs, p2)) => {
                    let prev = acc;
                    acc = Expr::BinaryOp(op, Box::new(prev), Box::new(rhs));
                    proof {
                        assert(bump(p2 as int, p as int) == p2 as int);
                    }
                    p = p2;
                },
                Err(err) => {
                    return Err(err);
                },
            }
        } else {
            return Ok((acc, p));
        }
    }
}

/// Parses an assignment or anything looser.
fn parse_assignment(tokens: &Vec<SpannedToken>, pos: usize) -> (r: Result<
    (Expr, usize),
    ParseError,
>)
    ensures
        tier_matches(
            sp_assignment(toks_view(tokens@), pos as int),
            r,
            pos as int,
            tokens@.len() as int,
        ),
    decreases vstd::math::max(tokens@.len() - pos, 0), 7int,
{
    if pos < tokens.len() && pos + 1 < tokens.len() && is_op(&tokens[pos + 1].token, Operator::Equals) {
        let name: Option<String> = match &tokens[pos].token {
            Token::Identifier(name) => Some(name.clone()),
            _ => None,
        };
        if let Some(name) = name {
            match parse_assignment(tokens, pos + 2) {
                Ok((e, p)) => {
                    return Ok((Expr::Assignment(name, Box::new(e)), p));
                },
                Err(err) => {
                    return Err(err);
                },
            }
        }
    }
    parse_additive(tokens, pos)
}

/// Parses a comma-separated argument list.
fn parse_args(tokens: &Vec<SpannedToken>, pos: usize) -> (r: Result<
    (Vec<Expr>, usize),
    ParseError,
>)
    ensures
        args_matches(
            sp_args(toks_view(tokens@), pos as int),
            r,
            pos as int,
            tokens@.len() as int,
        ),
    decreases vstd::math::max(tokens@.len() - pos, 0), 8int,
{
    let ghost ts = toks_view(tokens@);
    match parse_assignment(tokens, pos) {
        Ok((e, p)) => {
            proof {
                assert(bump(p as int, pos as int) == p as int);
            }
            if p < tokens.len() && is_op(&tokens[p].token, Operator::Comma) {
                match parse_args(tokens, p + 1) {
                    Ok((rest, p2)) => {
                        let mut out: Vec<Expr> = Vec::new();
                        let ghost e_view = e@;
                        let ghost rest_view = exprs_view(rest@);
                        out.push(e);
                        let mut k: usize = 0;
                        let n = rest.len();
                        let mut rest = rest;
                        proof {
                            lemma_exprs_view_index(rest@);
                            lemma_exprs_view_index(out@);
                            assert(exprs_view(out@) =~= seq![e_view]);
                        }
                        while k < n
                            invariant
                                n == rest@.len(),
                                k <= n,
                                out@.len() == k + 1,
                                rest_view == exprs_view(rest@),
                                exprs_view(out@) =~= (seq![e_view] + rest_view).take(k + 1),
                            decreases n - k,
                        {
                            let ghost out_before = out@;
                            let item = rest_dup_at(&rest, k);
                            out.push(item);
                            k += 1;
                            proof {
                                lemma_exprs_view_index(out@);
                                lemma_exprs_view_index(out_before);
                                lemma_exprs_view_index(rest@);
                                assert(exprs_view(out@) =~= (seq![e_view] + rest_view).take(
                                    k as int + 1,
                                ));
                            }
                        }
                        proof {
                            assert(exprs_view(out@) =~= seq![e_view] + rest_view);
                        }
                        Ok((out, p2))
                    },
                    Err(err) => Err(err),
                }
            } else {
                let mut out: Vec<Expr> = Vec::new();
                let ghost e_view = e@;
                out.push(e);
                proof {
                    lemma_exprs_view_index(out@);
                    assert(exprs_view(out@) =~= seq![e_view]);
                }
                Ok((out, p))
            }
        },
        Err(err) => Err(err),
    }
}

/// A deep copy of one expression of a vector.
fn rest_dup_at(v: &Vec<Expr>, k: usize) -> (r: Expr)
    requires
        k < v@.len(),
    ensures
        r@ == v@[k as int]@,
{
    expr_dup(&v[k])
}

/// A deep copy of an expression tree.
#[verifier::loop_isolation(false)]
pub fn expr_dup(e: &Expr) -> (r: Expr)
    ensures
        r@ == e@,
    decreases *e,
{
    match e {
        Expr::NumberLiteral(t) => Expr::NumberLiteral(t.clone()),
        Expr::Constant(c) => Expr::Constant(*c),
        Expr::Identifier(t) => Expr::Identifier(t.clone()),
        Expr::Negate(inner) => Expr::Negate(Box::new(expr_dup(inner))),
        Expr::BinaryOp(op, l, r0) => Expr::BinaryOp(
            *op,
            Box::new(expr_dup(l)),
            Box::new(expr_dup(r0)),
        ),
        Expr::Power(l, r0) => Expr::Power(Box::new(expr_dup(l)), Box::new(expr_dup(r0))),
        Expr::FunctionCall(c, args) => {
            let c2 = match c {
                Callee::Builtin(f) => Callee::Builtin(*f),
                Callee::User(name) => Callee::User(name.clone()),
            };
            let mut out: Vec<Expr> = Vec::new();
            let mut k: usize = 0;
            proof {
                lemma_exprs_view_index(out@);
                assert(exprs_view(out@) =~= exprs_view(args@).take(0));
            }
            while k < args.len()
                invariant
                    k <= args@.len(),
                    out@.len() == k,
                    forall|i: int| 0 <= i < k ==> out@[i]@ == args@[i]@,
                decreases args@.len() - k,
            {
                proof {
                    let whole = *e;
                    assert(whole is FunctionCall);
                    assert(decreases_to!(whole => whole->FunctionCall_1));
                    assert(whole->FunctionCall_1 == *args);
                    assert(decreases_to!(*args => args@));
                    assert(decreases_to!(args@ => args@[k as int]));
                }
                let item = expr_dup(&args[k]);
                out.push(item);
                k += 1;
            }
            proof {
                lemma_exprs_view_index(out@);
                lemma_exprs_view_index(args@);
                assert(exprs_view(out@) =~= exprs_view(args@));
            }
            Expr::FunctionCall(c2, out)
        },
        Expr::Assignment(name, inner) => Expr::Assignment(
            name.clone(),
            Box::new(expr_dup(inner)),
        ),
    }
}

/// Parses a whole token sequence into the tree of one expression, or
/// reports the first failure.
pub fn parse(tokens: &Vec<SpannedToken>) -> (r: Result<Expr, ParseError>)
    ensures
        r is Ok ==> sp_parse(toks_view(tokens@)) == Ok::<ExprV, ParseError>((r->Ok_0)@),
        r is Err ==> sp_parse(toks_view(tokens@)) == Err::<ExprV, ParseError>(r->Err_0),
{
    match parse_assignment(tokens, 0) {
        Ok((e, p)) => {
            if p == tokens.len() {
                Ok(e)
            } else {
                Err(ParseError { code: ParseErrorCode::UnexpectedToken, span: tokens[p].span })
            }
        },
        Err(err) => Err(err),
    }
}

} // verus!
