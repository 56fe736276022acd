use rscalc::BigNum;

#[test]
fn parsing_trims_a_trailing_fraction_zero() {
    let a = BigNum::from_text("12.30").unwrap();
    let b = BigNum::from_text("12.3").unwrap();
    assert_eq!(a, b);
}

#[test]
fn parsing_trims_leading_integer_zeros() {
    let a = BigNum::from_text("007.5").unwrap();
    let b = BigNum::from_text("7.5").unwrap();
    assert_eq!(a, b);
}

#[test]
fn zero_has_no_structural_digits() {
    let a = BigNum::from_text("0.0").unwrap();
    let b = BigNum::from_text(".").unwrap();
    assert_eq!(a, b);
    assert_eq!(a, BigNum::new());
}

#[test]
fn parsing_rejects_text_without_a_radix_point() {
    assert!(BigNum::from_text("123").is_none());
}

#[test]
fn parsing_rejects_a_non_digit() {
    assert!(BigNum::from_text("12a.3").is_none());
    assert!(BigNum::from_text("1.2.3").is_none());
}

#[test]
fn fraction_carry_rolls_into_the_integer_part() {
    let mut a = BigNum::from_text("0.9").unwrap();
    a.add_right(&[1]);
    assert_eq!(a, BigNum::from_text("1.").unwrap());
}

#[test]
fn integer_addition_carries_and_extends() {
    let mut a = BigNum::from_text("99.").unwrap();
    a.add_left(&[2]);
    assert_eq!(a, BigNum::from_text("101.").unwrap());
}

#[test]
fn fraction_addition_aligns_at_the_radix_point() {
    let mut a = BigNum::from_text("0.25").unwrap();
    a.add_right(&[5]);
    assert_eq!(a, BigNum::from_text("0.75").unwrap());
}

#[test]
fn addition_of_both_parts() {
    let mut a = BigNum::from_text("12.3").unwrap();
    let b = BigNum::from_text("0.7").unwrap();
    a.add_right(&[7]);
    a.add_left(&[0]);
    assert_eq!(a, BigNum::from_text("13.").unwrap());
    let _ = b;
}

#[test]
fn from_raw_normalizes_both_sequences() {
    let a = BigNum::from_raw(vec![3, 2, 1, 0, 0], vec![4, 5, 0]);
    let b = BigNum::from_text("123.45").unwrap();
    assert_eq!(a, b);
}

#[test]
fn decimal_backend_adds_through_the_interpreter() {
    let mut interp: rscalc::Interpreter<BigNum> = rscalc::Interpreter::new();
    let tokens = rscalc::tokenize("1.2+3.45").unwrap();
    let expr = rscalc::parse(&tokens).unwrap();
    assert_eq!(interp.eval(&expr), Ok(BigNum::from_text("4.65").unwrap()));
}

#[test]
fn decimal_backend_reads_dotless_literals() {
    let mut interp: rscalc::Interpreter<BigNum> = rscalc::Interpreter::new();
    let tokens = rscalc::tokenize("2+0.5").unwrap();
    let expr = rscalc::parse(&tokens).unwrap();
    assert_eq!(interp.eval(&expr), Ok(BigNum::from_text("2.5").unwrap()));
}

#[test]
fn decimal_backend_rejects_what_it_lacks() {
    let mut interp: rscalc::Interpreter<BigNum> = rscalc::Interpreter::new();
    let tokens = rscalc::tokenize("1.5*2.0").unwrap();
    let expr = rscalc::parse(&tokens).unwrap();
    assert_eq!(
        interp.eval(&expr),
        Err(rscalc::InterpretError::UnsupportedOperation)
    );
}

#[test]
fn rendering_gives_the_canonical_text() {
    assert_eq!(BigNum::from_text("12.3").unwrap().to_text(), "12.3");
    assert_eq!(BigNum::from_text("0.5").unwrap().to_text(), ".5");
    assert_eq!(BigNum::new().to_text(), ".");
}

#[test]
fn parse_then_render_round_trips_canonical_text() {
    for t in ["12.3", "101.", ".25", "."] {
        assert_eq!(BigNum::from_text(t).unwrap().to_text(), t);
    }
}
