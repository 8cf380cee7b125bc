use demo_compiler::common_factor_elimination::CommonFactorElimination;
use demo_compiler::compiler::{CompileOptions, Compiler};
use demo_compiler::interpreter::Interpreter;
use demo_compiler::options::InterpreterOptions;
use demo_compiler::types::{Expr, Inst, LpErr, Operator, RuntimeError};

fn compile_and_run(
    source: &str,
    options: CompileOptions,
    vars: Vec<(&str, &str)>,
) -> Result<i32, LpErr> {
    let hw: InterpreterOptions = Default::default();
    let (instructions, _names) = Compiler::with(options).with_interpreter(hw).compile(source)?;
    Interpreter::with_config(&hw)
        .load_instructions(instructions)
        .with_variables(
            vars.iter()
                .map(|(k, v)| (k.to_string(), v.to_string()))
                .collect(),
        )
        .run_to_end()
}

#[test]
fn scenario_one_plus_two() {
    let options: CompileOptions = Default::default();
    assert_eq!(compile_and_run("1 + 2", options, vec![]), Ok(3));
}

#[test]
fn scenario_three_two_one() {
    let options: CompileOptions = Default::default();
    assert_eq!(compile_and_run("3 + 2 + 1", options, vec![]), Ok(6));
}

#[test]
fn scenario_folding_with_variables() {
    let mut options: CompileOptions = Default::default();
    options.do_constant_folding = true;
    assert_eq!(
        compile_and_run(
            "1000 * 2 + 4 * 5 + (15 / 3) + x * 13 - y * 2",
            options,
            vec![("x", "2"), ("y", "3")]
        ),
        Ok(2045)
    );
}

#[test]
fn scenario_shift_replacement() {
    let mut options: CompileOptions = Default::default();
    options.do_shift_replacement = true;
    let hw: InterpreterOptions = Default::default();
    let (instructions, _names) = Compiler::with(options)
        .with_interpreter(hw)
        .compile("16 / 2 * 4 / 4")
        .unwrap();
    assert!(instructions
        .iter()
        .any(|i| matches!(i, Inst::Shl(_, _)) || matches!(i, Inst::Shr(_, _))));
    assert!(!instructions
        .iter()
        .any(|i| matches!(i, Inst::Div(_, _)) || matches!(i, Inst::Mul(_, _))));
    let result = Interpreter::with_config(&hw)
        .load_instructions(instructions)
        .with_variables(vec![])
        .run_to_end();
    assert_eq!(result, Ok(8));
}

#[test]
fn scenario_common_factor_elimination() {
    let mut options: CompileOptions = Default::default();
    options.do_common_factor_elimination = true;
    assert_eq!(
        compile_and_run("t * 16 + t * (3 + 2)", options, vec![("t", "2")]),
        Ok(42)
    );
}

#[test]
fn scenario_common_factor_rewrites_root_to_mul() {
    let ast = demo_compiler::parser::run_parser("t * 16 + t * (3 + 2)").unwrap();
    let rewritten = ast.extract_common_factors();
    match rewritten {
        Expr::BinaryOp(factor, Operator::Mul, _rest) => {
            assert_eq!(*factor, Expr::Var("t".to_string()));
        }
        other => panic!("expected a factored multiplication, got {other:?}"),
    }
}

#[test]
fn scenario_division_by_zero_at_runtime() {
    let options: CompileOptions = Default::default();
    assert_eq!(
        compile_and_run("5 / (1 - 1)", options, vec![]),
        Err(LpErr::Interpret(RuntimeError::DivisionByZero))
    );
}

#[test]
fn deep_nesting_forces_spills_and_reloads() {
    let options: CompileOptions = Default::default();
    let source = "1 + (2 + (3 + (4 + (5 + (6 + (7 + 8))))))";
    assert_eq!(compile_and_run(source, options, vec![]), Ok(36));

    let hw = InterpreterOptions {
        num_registers: 2,
        num_cachelines: 16,
    };
    let (instructions, _names) = Compiler::with(options)
        .with_interpreter(hw)
        .compile(source)
        .unwrap();
    assert!(instructions.iter().any(|i| matches!(i, Inst::Write(_, _))));
    assert!(instructions.iter().any(|i| matches!(i, Inst::Load(_, _))));
    let result = Interpreter::with_config(&hw)
        .load_instructions(instructions)
        .with_variables(vec![])
        .run_to_end();
    assert_eq!(result, Ok(36));
}

#[test]
fn squaring_a_literal_uses_two_registers() {
    let options: CompileOptions = Default::default();
    let hw: InterpreterOptions = Default::default();
    let (instructions, _names) = Compiler::with(options)
        .with_interpreter(hw)
        .compile("3 * 3")
        .unwrap();
    // Each leaf claims its own register; the recorded location of the
    // repeated literal stays with the first one.
    let stores = instructions
        .iter()
        .filter(|i| matches!(i, Inst::Store(_, _)))
        .count();
    assert_eq!(stores, 2);
    let result = Interpreter::with_config(&hw)
        .load_instructions(instructions)
        .with_variables(vec![])
        .run_to_end();
    assert_eq!(result, Ok(9));
}

#[test]
fn folding_does_not_change_a_closed_result() {
    let plain: CompileOptions = Default::default();
    let mut folded: CompileOptions = Default::default();
    folded.do_constant_folding = true;
    // Direct evaluation: 2 * 3 + 20 / 4 - 1 == 10.
    assert_eq!(compile_and_run("2 * 3 + 20 / 4 - 1", plain, vec![]), Ok(10));
    assert_eq!(compile_and_run("2 * 3 + 20 / 4 - 1", folded, vec![]), Ok(10));
}

#[test]
fn round_trip_is_deterministic() {
    let mut options: CompileOptions = Default::default();
    options.do_constant_folding = true;
    options.run_cache_optimization = true;
    let hw: InterpreterOptions = Default::default();
    let source = "x * 4 + (2 + 3) * x";
    let first = Compiler::with(options).with_interpreter(hw).compile(source).unwrap();
    let second = Compiler::with(options).with_interpreter(hw).compile(source).unwrap();
    assert_eq!(first.0, second.0);
    assert_eq!(first.1, second.1);
    let run1 = Interpreter::with_config(&hw)
        .load_instructions(first.0)
        .with_variables(vec![("x".to_string(), "7".to_string())])
        .run_to_end();
    let run2 = Interpreter::with_config(&hw)
        .load_instructions(second.0)
        .with_variables(vec![("x".to_string(), "7".to_string())])
        .run_to_end();
    assert_eq!(run1, run2);
    assert_eq!(run1, Ok(63));
}

#[test]
fn cache_optimization_preserves_behavior() {
    let source = "1 + (2 + (3 + (4 + (5 + (6 + (7 + 8))))))";
    let hw = InterpreterOptions {
        num_registers: 2,
        num_cachelines: 8,
    };
    let plain: CompileOptions = Default::default();
    let mut optimized: CompileOptions = Default::default();
    optimized.run_cache_optimization = true;

    let (code_plain, _) = Compiler::with(plain).with_interpreter(hw).compile(source).unwrap();
    let (code_opt, _) = Compiler::with(optimized).with_interpreter(hw).compile(source).unwrap();
    assert!(code_opt.len() <= code_plain.len());

    // With eight cells the spill ring wraps and overwrites live values — a
    // documented quirk of the allocator — so the final value is not the
    // arithmetic one; dead-store elimination must preserve it regardless.
    let run_plain = Interpreter::with_config(&hw)
        .load_instructions(code_plain)
        .with_variables(vec![])
        .run_to_end();
    let run_opt = Interpreter::with_config(&hw)
        .load_instructions(code_opt)
        .with_variables(vec![])
        .run_to_end();
    assert!(run_plain.is_ok());
    assert_eq!(run_plain, run_opt);

    // With enough cells the value is the arithmetic one, kept by the pass.
    let roomy = InterpreterOptions {
        num_registers: 2,
        num_cachelines: 64,
    };
    let (code_plain, _) = Compiler::with(plain).with_interpreter(roomy).compile(source).unwrap();
    let (code_opt, _) = Compiler::with(optimized).with_interpreter(roomy).compile(source).unwrap();
    let run_plain = Interpreter::with_config(&roomy)
        .load_instructions(code_plain)
        .with_variables(vec![])
        .run_to_end();
    let run_opt = Interpreter::with_config(&roomy)
        .load_instructions(code_opt)
        .with_variables(vec![])
        .run_to_end();
    assert_eq!(run_plain, Ok(36));
    assert_eq!(run_opt, Ok(36));
}

#[test]
fn register_indices_stay_below_the_configured_count() {
    let hw = InterpreterOptions {
        num_registers: 3,
        num_cachelines: 4,
    };
    let options: CompileOptions = Default::default();
    let (instructions, _names) = Compiler::with(options)
        .with_interpreter(hw)
        .compile("1 + (2 + (3 + (4 + 5))) * 6")
        .unwrap();
    for inst in &instructions {
        let regs: Vec<u8> = match inst {
            Inst::Add(a, b)
            | Inst::Sub(a, b)
            | Inst::Mul(a, b)
            | Inst::Div(a, b)
            | Inst::Shl(a, b)
            | Inst::Shr(a, b) => vec![*a, *b],
            Inst::Store(_, r) | Inst::Result(r) => vec![*r],
            Inst::Transfer(_, r) => vec![*r],
            Inst::Write(r, addr) => {
                assert!(*addr < 4);
                vec![*r]
            }
            Inst::Load(addr, r) => {
                assert!(*addr < 4);
                vec![*r]
            }
        };
        for r in regs {
            assert!(r < 3);
        }
    }
}
