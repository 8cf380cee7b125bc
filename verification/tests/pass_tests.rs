use demo_compiler::cache_optimization::run_cache_optimization;
use demo_compiler::common_factor_elimination::CommonFactorElimination;
use demo_compiler::compiler::{CompileOptions, Compiler, u8tochar};
use demo_compiler::constant_folding::ConstantFold;
use demo_compiler::options::InterpreterOptions;
use demo_compiler::parser::run_parser;
use demo_compiler::shift_replacement::ShiftReplacement;
use demo_compiler::types::{Expr, Inst, IrError, LpErr, Operator, expressions_equal};
use demo_compiler::ui::Examples;

#[test]
fn folding_reduces_a_constant_tree() {
    let ast = run_parser("1 + 2 * 3").unwrap();
    assert_eq!(ast.run_constant_fold(), Expr::Num(7));
}

#[test]
fn folding_negates_a_literal() {
    let ast = run_parser("-5").unwrap();
    assert_eq!(ast.run_constant_fold(), Expr::Num(-5));
}

#[test]
fn folding_leaves_division_by_zero_in_place() {
    let ast = run_parser("1 / 0").unwrap();
    assert_eq!(
        ast.run_constant_fold(),
        Expr::BinaryOp(Box::new(Expr::Num(1)), Operator::Div, Box::new(Expr::Num(0)))
    );
}

#[test]
fn folding_truncates_toward_zero() {
    let ast = run_parser("7 / 2").unwrap();
    assert_eq!(ast.run_constant_fold(), Expr::Num(3));
    let ast = run_parser("0 - 7 / 2").unwrap();
    assert_eq!(ast.run_constant_fold(), Expr::Num(-3));
}

#[test]
fn folding_keeps_variable_subtrees() {
    let ast = run_parser("x + 2 * 3").unwrap();
    assert_eq!(
        ast.run_constant_fold(),
        Expr::BinaryOp(
            Box::new(Expr::Var("x".to_string())),
            Operator::Add,
            Box::new(Expr::Num(6))
        )
    );
}

#[test]
fn shift_replacement_on_right_literal() {
    let ast = run_parser("x * 8").unwrap();
    assert_eq!(
        ast.replace_multiplications_with_bitshifts(),
        Expr::BinaryOp(
            Box::new(Expr::Var("x".to_string())),
            Operator::Shl,
            Box::new(Expr::Num(3))
        )
    );
}

#[test]
fn shift_replacement_on_left_literal() {
    let ast = run_parser("8 * x").unwrap();
    assert_eq!(
        ast.replace_multiplications_with_bitshifts(),
        Expr::BinaryOp(
            Box::new(Expr::Var("x".to_string())),
            Operator::Shl,
            Box::new(Expr::Num(3))
        )
    );
}

#[test]
fn shift_replacement_on_division() {
    let ast = run_parser("x / 4").unwrap();
    assert_eq!(
        ast.replace_multiplications_with_bitshifts(),
        Expr::BinaryOp(
            Box::new(Expr::Var("x".to_string())),
            Operator::Shr,
            Box::new(Expr::Num(2))
        )
    );
}

#[test]
fn shift_replacement_ignores_other_factors() {
    let ast = run_parser("x * 6").unwrap();
    let unchanged = run_parser("x * 6").unwrap();
    assert_eq!(ast.replace_multiplications_with_bitshifts(), unchanged);

    // Zero passes the bit identity but is not a power of two.
    let ast = run_parser("x * 0").unwrap();
    let unchanged = run_parser("x * 0").unwrap();
    assert_eq!(ast.replace_multiplications_with_bitshifts(), unchanged);

    // A variable divisor is never rewritten.
    let ast = run_parser("4 / x").unwrap();
    let unchanged = run_parser("4 / x").unwrap();
    assert_eq!(ast.replace_multiplications_with_bitshifts(), unchanged);
}

#[test]
fn shift_replacement_multiply_by_one_shifts_by_zero() {
    let ast = run_parser("x * 1").unwrap();
    assert_eq!(
        ast.replace_multiplications_with_bitshifts(),
        Expr::BinaryOp(
            Box::new(Expr::Var("x".to_string())),
            Operator::Shl,
            Box::new(Expr::Num(0))
        )
    );
}

#[test]
fn common_factor_is_pulled_out_front() {
    let ast = run_parser("a * b + a * c").unwrap();
    assert_eq!(
        ast.extract_common_factors(),
        Expr::BinaryOp(
            Box::new(Expr::Var("a".to_string())),
            Operator::Mul,
            Box::new(Expr::BinaryOp(
                Box::new(Expr::Var("b".to_string())),
                Operator::Add,
                Box::new(Expr::Var("c".to_string()))
            ))
        )
    );
}

#[test]
fn common_factor_whole_side_becomes_one() {
    let ast = run_parser("a + a * b").unwrap();
    assert_eq!(
        ast.extract_common_factors(),
        Expr::BinaryOp(
            Box::new(Expr::Var("a".to_string())),
            Operator::Mul,
            Box::new(Expr::BinaryOp(
                Box::new(Expr::Num(1)),
                Operator::Add,
                Box::new(Expr::Var("b".to_string()))
            ))
        )
    );
}

#[test]
fn common_factor_without_a_match_changes_nothing() {
    let ast = run_parser("a * b + c * d").unwrap();
    let unchanged = run_parser("a * b + c * d").unwrap();
    assert_eq!(ast.extract_common_factors(), unchanged);
}

#[test]
fn cache_optimization_drops_unloaded_writes() {
    let code = vec![
        Inst::Store(1, 0),
        Inst::Write(0, 3),
        Inst::Store(2, 0),
        Inst::Write(0, 4),
        Inst::Load(4, 1),
        Inst::Result(1),
    ];
    let optimized = run_cache_optimization(code);
    assert_eq!(
        optimized,
        vec![
            Inst::Store(1, 0),
            Inst::Store(2, 0),
            Inst::Write(0, 4),
            Inst::Load(4, 1),
            Inst::Result(1),
        ]
    );
}

#[test]
fn cache_optimization_keeps_everything_else() {
    let code = vec![Inst::Store(1, 0), Inst::Result(0)];
    let optimized = run_cache_optimization(code.clone());
    assert_eq!(optimized, code);
}

#[test]
fn invalid_unary_operator_is_an_ir_error() {
    let hw: InterpreterOptions = Default::default();
    let options: CompileOptions = Default::default();
    let compiler = Compiler::with(options).with_interpreter(hw);
    let bad = Expr::UnaryOp(Operator::Add, Box::new(Expr::Num(1)));
    assert_eq!(
        compiler.generate_ir(&bad),
        Err(LpErr::IR(IrError::InvalidUnaryOperator(Operator::Add)))
    );
}

#[test]
fn register_letters_start_at_a() {
    assert_eq!(u8tochar(0), 'a');
    assert_eq!(u8tochar(1), 'b');
    assert_eq!(u8tochar(25), 'z');
}

#[test]
fn structural_equality_and_duplication() {
    let a = run_parser("x * (1 + y)").unwrap();
    let b = run_parser("x * (1 + y)").unwrap();
    let c = run_parser("x * (1 + z)").unwrap();
    assert!(expressions_equal(&a, &b));
    assert!(!expressions_equal(&a, &c));
    assert!(expressions_equal(&a, &a.duplicate()));
    assert!(Expr::Num(3).is_num());
    assert!(!Expr::Var("n".to_string()).is_num());
}

#[test]
fn operator_symbols() {
    assert_eq!(Operator::try_from('+'), Ok(Operator::Add));
    assert_eq!(Operator::try_from('-'), Ok(Operator::Sub));
    assert_eq!(Operator::try_from('*'), Ok(Operator::Mul));
    assert_eq!(Operator::try_from('/'), Ok(Operator::Div));
    assert_eq!(Operator::try_from('!'), Err('!'));
}

#[test]
fn compile_options_any() {
    let none: CompileOptions = Default::default();
    assert!(!none.any());
    let mut one = none;
    one.do_shift_replacement = true;
    assert!(one.any());
}

#[test]
fn preloaded_examples_compile_and_run() {
    let gallery = Examples::preloaded();
    assert_eq!(gallery.examples.len(), 5);
    assert_eq!(gallery.examples[0].input, "3 + 2 + 1");

    // The third example needs no variables; its value is fixed.
    let hw: InterpreterOptions = Default::default();
    let example = &gallery.examples[2];
    let (code, names) = Compiler::with(example.options)
        .with_interpreter(hw)
        .compile(example.input)
        .unwrap();
    assert!(names.is_empty());
    let result = demo_compiler::interpreter::Interpreter::with_config(&hw)
        .load_instructions(code)
        .with_variables(vec![])
        .run_to_end();
    assert_eq!(result, Ok(230460));
}
