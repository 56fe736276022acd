use rscalc::{
    parse, tokenize, Expr, FunctionDef, Interpreter, InterpretError, LexerError, Operator, Span,
    Token, Variant,
};

fn eval_text(interp: &mut Interpreter<i64>, text: &str) -> Result<i64, InterpretError> {
    let tokens = tokenize(text).expect("tokenize");
    let expr = parse(&tokens).expect("parse");
    interp.eval(&expr)
}

#[test]
fn precedence_mul_binds_tighter_than_add() {
    let mut interp: Interpreter<i64> = Interpreter::new();
    assert_eq!(eval_text(&mut interp, "2+3*4"), Ok(14));
}

#[test]
fn precedence_parens_override() {
    let mut interp: Interpreter<i64> = Interpreter::new();
    assert_eq!(eval_text(&mut interp, "(2+3)*4"), Ok(20));
}

#[test]
fn precedence_power_binds_tighter_than_unary_minus() {
    let mut interp: Interpreter<i64> = Interpreter::new();
    assert_eq!(eval_text(&mut interp, "-2^2"), Ok(-4));
}

#[test]
fn power_is_right_associative() {
    let mut interp: Interpreter<i64> = Interpreter::new();
    assert_eq!(eval_text(&mut interp, "2^3^2"), Ok(512));
}

#[test]
fn implicit_multiplication() {
    let mut interp: Interpreter<i64> = Interpreter::new();
    assert_eq!(eval_text(&mut interp, "2(3+4)"), Ok(14));
}

#[test]
fn assignment_persists_and_is_an_expression() {
    let mut interp: Interpreter<i64> = Interpreter::new();
    assert_eq!(eval_text(&mut interp, "x=5"), Ok(5));
    assert_eq!(eval_text(&mut interp, "x+1"), Ok(6));
}

#[test]
fn arity_too_few_and_too_many() {
    let mut interp: Interpreter<i64> = Interpreter::new();
    let body = Expr::BinaryOp(
        Operator::Plus,
        Box::new(Expr::Identifier("a".to_string())),
        Box::new(Expr::Identifier("b".to_string())),
    );
    interp.vars.set(
        "f".to_string(),
        Variant::Function(FunctionDef {
            params: vec!["a".to_string(), "b".to_string()],
            body,
        }),
    );
    assert_eq!(
        eval_text(&mut interp, "f(1)"),
        Err(InterpretError::TooFewArgs("f".to_string(), 2))
    );
    assert_eq!(
        eval_text(&mut interp, "f(1,2,3)"),
        Err(InterpretError::TooManyArgs("f".to_string(), 2))
    );
    assert_eq!(eval_text(&mut interp, "f(1,2)"), Ok(3));
}

#[test]
fn unbound_identifier() {
    let mut interp: Interpreter<i64> = Interpreter::new();
    assert_eq!(
        eval_text(&mut interp, "y"),
        Err(InterpretError::VarDoesNotExist("y".to_string()))
    );
}

#[test]
fn tokenize_error_span_is_exact() {
    let err = tokenize("2 & 3").unwrap_err();
    assert_eq!(err.code, LexerError::InvalidCharacter('&'));
    assert_eq!(err.span, Span { start: 2, end: 3 });
}

#[test]
fn tokenize_rejects_a_malformed_number() {
    let err = tokenize("1.2.3").unwrap_err();
    assert_eq!(err.code, LexerError::InvalidNumber("1.2.3".to_string()));
    assert_eq!(err.span, Span { start: 0, end: 5 });
}

#[test]
fn tokenize_simple_sum() {
    let tokens = tokenize("2 + 2").unwrap();
    assert_eq!(tokens.len(), 3);
    assert_eq!(tokens[0].token, Token::Number("2".to_string()));
    assert_eq!(tokens[1].token, Token::Operator(Operator::Plus));
    assert_eq!(tokens[2].token, Token::Number("2".to_string()));
    assert_eq!(tokens[0].span, Span { start: 0, end: 1 });
    assert_eq!(tokens[1].span, Span { start: 2, end: 3 });
    assert_eq!(tokens[2].span, Span { start: 4, end: 5 });
}

#[test]
fn tokenize_lowercases_identifiers_and_keywords() {
    let tokens = tokenize("PI Xy SQRT").unwrap();
    assert_eq!(tokens.len(), 3);
    assert_eq!(
        tokens[0].token,
        Token::Constant(rscalc::Constant::Pi)
    );
    assert_eq!(tokens[1].token, Token::Identifier("xy".to_string()));
    assert_eq!(
        tokens[2].token,
        Token::Function(rscalc::Function::Sqrt)
    );
}

#[test]
fn parse_reports_missing_closing_paren() {
    let tokens = tokenize("(2+3").unwrap();
    let err = parse(&tokens).unwrap_err();
    assert_eq!(err.code, rscalc::ParseErrorCode::ExpectedClosingDelimiter);
}

#[test]
fn parse_reports_missing_closing_pipe() {
    let tokens = tokenize("|2+3").unwrap();
    let err = parse(&tokens).unwrap_err();
    assert_eq!(err.code, rscalc::ParseErrorCode::ExpectedClosingDelimiter);
}

#[test]
fn parse_reports_unexpected_end() {
    let tokens = tokenize("2+").unwrap();
    let err = parse(&tokens).unwrap_err();
    assert_eq!(err.code, rscalc::ParseErrorCode::UnexpectedEOF);
}

#[test]
fn parse_reports_a_leftover_token() {
    let tokens = tokenize("2 3").unwrap();
    let err = parse(&tokens).unwrap_err();
    assert_eq!(err.code, rscalc::ParseErrorCode::UnexpectedToken);
    assert_eq!(err.span, Span { start: 2, end: 3 });
}

#[test]
fn division_and_remainder_truncate() {
    let mut interp: Interpreter<i64> = Interpreter::new();
    assert_eq!(eval_text(&mut interp, "7/2"), Ok(3));
    assert_eq!(eval_text(&mut interp, "7%2"), Ok(1));
}

#[test]
fn absolute_value_brackets_and_function() {
    let mut interp: Interpreter<i64> = Interpreter::new();
    assert_eq!(eval_text(&mut interp, "|0-9|+3"), Ok(12));
    assert_eq!(eval_text(&mut interp, "abs(0-5)"), Ok(5));
}

#[test]
fn integer_backend_rejects_what_it_cannot_represent() {
    let mut interp: Interpreter<i64> = Interpreter::new();
    assert_eq!(
        eval_text(&mut interp, "sin(1)"),
        Err(InterpretError::UnsupportedOperation)
    );
    assert_eq!(
        eval_text(&mut interp, "1.5"),
        Err(InterpretError::UnsupportedOperation)
    );
    assert_eq!(
        eval_text(&mut interp, "1000000000*1000000000*10"),
        Err(InterpretError::UnsupportedOperation)
    );
}

#[test]
fn using_a_value_like_a_function_and_back() {
    let mut interp: Interpreter<i64> = Interpreter::new();
    assert_eq!(eval_text(&mut interp, "x=5"), Ok(5));
    assert_eq!(
        eval_text(&mut interp, "x(1)"),
        Err(InterpretError::VarIsNotFunction("x".to_string()))
    );
    interp.vars.set(
        "g".to_string(),
        Variant::Function(FunctionDef {
            params: vec![],
            body: Expr::NumberLiteral("7".to_string()),
        }),
    );
    assert_eq!(
        eval_text(&mut interp, "g"),
        Err(InterpretError::FunctionNameUsedLikeVar("g".to_string()))
    );
    let call = Expr::FunctionCall(rscalc::Callee::User("g".to_string()), vec![]);
    assert_eq!(interp.eval(&call), Ok(7));
}

#[test]
fn unbounded_self_recursion_is_stopped() {
    let mut interp: Interpreter<i64> = Interpreter::new();
    interp.vars.set(
        "loop".to_string(),
        Variant::Function(FunctionDef {
            params: vec![],
            body: Expr::FunctionCall(rscalc::Callee::User("loop".to_string()), vec![]),
        }),
    );
    let call = Expr::FunctionCall(rscalc::Callee::User("loop".to_string()), vec![]);
    assert_eq!(interp.eval(&call), Err(InterpretError::RecursionLimit));
}

#[test]
fn call_parameters_do_not_leak_into_the_caller() {
    let mut interp: Interpreter<i64> = Interpreter::new();
    interp.vars.set(
        "f".to_string(),
        Variant::Function(FunctionDef {
            params: vec!["a".to_string()],
            body: Expr::Identifier("a".to_string()),
        }),
    );
    assert_eq!(eval_text(&mut interp, "f(41)+1"), Ok(42));
    assert_eq!(
        eval_text(&mut interp, "a"),
        Err(InterpretError::VarDoesNotExist("a".to_string()))
    );
}

#[test]
fn repeated_evaluation_is_deterministic() {
    let mut one: Interpreter<i64> = Interpreter::new();
    let mut two: Interpreter<i64> = Interpreter::new();
    assert_eq!(eval_text(&mut one, "2+3*4"), eval_text(&mut two, "2+3*4"));
    assert_eq!(eval_text(&mut one, "y"), eval_text(&mut two, "y"));
}

#[test]
fn unicode_letters_form_identifiers() {
    let tokens = tokenize("\u{0394}x").unwrap();
    assert_eq!(tokens.len(), 1);
    assert_eq!(tokens[0].token, Token::Identifier("\u{03B4}x".to_string()));
    assert_eq!(tokens[0].span, Span { start: 0, end: 3 });
}

#[test]
fn unicode_whitespace_is_skipped_and_spans_count_bytes() {
    let tokens = tokenize("2\u{00A0}+3").unwrap();
    assert_eq!(tokens.len(), 3);
    assert_eq!(tokens[0].span, Span { start: 0, end: 1 });
    assert_eq!(tokens[1].span, Span { start: 3, end: 4 });
    assert_eq!(tokens[2].span, Span { start: 4, end: 5 });
}
