//! An expression-evaluator library: a tokenizer with source spans, a
//! precedence-climbing parser, an interpreter with a mutable variable
//! environment, and an arbitrary-precision fixed-point decimal number type.

use vstd::prelude::*;

mod bignum;
mod lexer;
mod interp;
mod num;
mod parser;

pub use bignum::BigNum;
pub use lexer::{Constant, Function, LexerError, Operator, Span, SpannedToken, Token, TokenizeError};
pub use lexer::tokenize;
pub use parser::{Callee, Expr, ParseError, ParseErrorCode};
pub use parser::{expr_dup, parse};
pub use num::Num;
pub use interp::{Env, FunctionDef, Interpreter, InterpretError, Variant, CALL_DEPTH};

verus! {

/// Law: the pipeline is deterministic. Tokenizing, parsing and
/// evaluating are mathematical functions of the source text and the
/// starting environment — `tokenize`, `parse` and `Interpreter::eval`
/// each promise to return exactly these functions' results — so
/// identical text against an identical environment yields an identical
/// token sequence or tokenize failure, an identical tree or parse
/// failure, and an identical value or evaluation failure beside an
/// identical final environment, on every call.
pub proof fn lemma_pipeline_deterministic<N: num::Num>(
    text1: Seq<char>,
    text2: Seq<char>,
    env1: interp::EnvMap<N::Value>,
    env2: interp::EnvMap<N::Value>,
    fuel: nat,
)
    requires
        text1 == text2,
        env1 == env2,
    ensures
        lexer::spec_tokenize(text1) == lexer::spec_tokenize(text2),
        (match (lexer::spec_tokenize(text1), lexer::spec_tokenize(text2)) {
            (Ok(ts1), Ok(ts2)) => parser::sp_parse(ts1) == parser::sp_parse(ts2),
            (r1, r2) => r1 == r2,
        }),
        (match (lexer::spec_tokenize(text1), lexer::spec_tokenize(text2)) {
            (Ok(ts1), Ok(ts2)) => match (parser::sp_parse(ts1), parser::sp_parse(ts2)) {
                (Ok(e1), Ok(e2)) => interp::sp_eval::<N>(e1, env1, fuel) == interp::sp_eval::<N>(
                    e2,
                    env2,
                    fuel,
                ),
                (r1, r2) => r1 == r2,
            },
            (r1, r2) => r1 == r2,
        }),
{
}

} // verus!
