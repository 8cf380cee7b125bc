use demo_compiler::parser::run_parser;
use demo_compiler::types::{Expr, LpErr, Operator, ParseError};

#[test]
fn parse_simple_expr() -> Result<(), LpErr> {
    let expr = run_parser("(1 + 2)")?;

    assert_eq!(
        expr,
        Expr::BinaryOp(
            Box::new(Expr::Num(1)),
            Operator::Add,
            Box::new(Expr::Num(2))
        )
    );
    Ok(())
}

#[test]
fn parse_simple_sym() -> Result<(), LpErr> {
    let expr = run_parser("(1 + a)")?;

    assert_eq!(
        expr,
        Expr::BinaryOp(
            Box::new(Expr::Num(1)),
            Operator::Add,
            Box::new(Expr::Var("a".to_string()))
        )
    );
    Ok(())
}

#[test]
fn parse_nested_parens() -> Result<(), LpErr> {
    let expr = run_parser("((((1 + 2))))")?;

    assert_eq!(
        expr,
        Expr::BinaryOp(
            Box::new(Expr::Num(1)),
            Operator::Add,
            Box::new(Expr::Num(2))
        )
    );
    Ok(())
}

#[test]
fn parse_invalid_expr() -> Result<(), LpErr> {
    let inputs = vec![
        "(1 + 2+)",
        "(1 + +2)",
        "(1 + *)",
        "(1 1 1)",
        "(1 (1) 1)",
        "(1 + 1 1)",
    ];

    for input in inputs {
        assert!(run_parser(input).is_err(), "`{input}` should fail but got `{:?}`", run_parser(input));
    }
    Ok(())
}

#[test]
fn parse_nested_1() -> Result<(), LpErr> {
    let expr = run_parser("(1 + (2 * 3))")?;

    assert_eq!(
        expr,
        Expr::BinaryOp(
            Box::new(Expr::Num(1)),
            Operator::Add,
            Box::new(Expr::BinaryOp(
                Box::new(Expr::Num(2)),
                Operator::Mul,
                Box::new(Expr::Num(3))
            ))
        )
    );
    Ok(())
}

#[test]
fn parse_nested_2() -> Result<(), LpErr> {
    let expr = run_parser("((1 + 2) * 3)")?;

    assert_eq!(
        expr,
        Expr::BinaryOp(
            Box::new(Expr::BinaryOp(
                Box::new(Expr::Num(1)),
                Operator::Add,
                Box::new(Expr::Num(2))
            )),
            Operator::Mul,
            Box::new(Expr::Num(3))
        )
    );
    Ok(())
}

#[test]
fn parse_unary_negation_folds_right() {
    let expr = run_parser("--3").unwrap();
    assert_eq!(
        expr,
        Expr::UnaryOp(
            Operator::Sub,
            Box::new(Expr::UnaryOp(Operator::Sub, Box::new(Expr::Num(3))))
        )
    );
}

#[test]
fn parse_left_associative_subtraction() {
    let expr = run_parser("10 - 4 - 3").unwrap();
    assert_eq!(
        expr,
        Expr::BinaryOp(
            Box::new(Expr::BinaryOp(
                Box::new(Expr::Num(10)),
                Operator::Sub,
                Box::new(Expr::Num(4))
            )),
            Operator::Sub,
            Box::new(Expr::Num(3))
        )
    );
}

#[test]
fn parse_precedence_mul_binds_tighter() {
    let expr = run_parser("1 + 2 * 3").unwrap();
    assert_eq!(
        expr,
        Expr::BinaryOp(
            Box::new(Expr::Num(1)),
            Operator::Add,
            Box::new(Expr::BinaryOp(
                Box::new(Expr::Num(2)),
                Operator::Mul,
                Box::new(Expr::Num(3))
            ))
        )
    );
}

#[test]
fn parse_identifier_with_digits_and_underscore() {
    let expr = run_parser("my_var2").unwrap();
    assert_eq!(expr, Expr::Var("my_var2".to_string()));
}

#[test]
fn parse_error_unexpected_char() {
    assert_eq!(
        run_parser("1 + ?"),
        Err(LpErr::Parse(ParseError::UnexpectedChar(4)))
    );
}

#[test]
fn parse_error_literal_overflow() {
    assert_eq!(
        run_parser("99999999999"),
        Err(LpErr::Parse(ParseError::LiteralOverflow(0)))
    );
    assert_eq!(run_parser("2147483647").unwrap(), Expr::Num(2147483647));
    assert!(run_parser("2147483648").is_err());
}

#[test]
fn parse_error_leading_zero() {
    assert_eq!(
        run_parser("007"),
        Err(LpErr::Parse(ParseError::LeadingZero(0)))
    );
    assert_eq!(run_parser("0").unwrap(), Expr::Num(0));
}

#[test]
fn parse_error_empty_and_unbalanced() {
    assert!(run_parser("").is_err());
    assert!(run_parser("(1 + 2").is_err());
    assert!(run_parser("1 2").is_err());
}
