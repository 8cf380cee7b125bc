use demo_compiler::interpreter::{Interpreter, InterpreterState, interpret_ir};
use demo_compiler::options::InterpreterOptions;
use demo_compiler::types::{Inst, LpErr, RuntimeError};

fn machine() -> InterpreterOptions {
    Default::default()
}

fn run(code: Vec<Inst>, vars: Vec<(&str, &str)>) -> Result<i32, LpErr> {
    Interpreter::with_config(&machine())
        .load_instructions(code)
        .with_variables(
            vars.iter()
                .map(|(k, v)| (k.to_string(), v.to_string()))
                .collect(),
        )
        .run_to_end()
}

#[test]
fn store_and_result() {
    assert_eq!(run(vec![Inst::Store(41, 0), Inst::Result(0)], vec![]), Ok(41));
}

#[test]
fn binary_operations_overwrite_the_second_register() {
    assert_eq!(
        run(
            vec![Inst::Store(10, 0), Inst::Store(4, 1), Inst::Sub(0, 1), Inst::Result(1)],
            vec![]
        ),
        Ok(6)
    );
    assert_eq!(
        run(
            vec![Inst::Store(10, 0), Inst::Store(4, 1), Inst::Div(0, 1), Inst::Result(1)],
            vec![]
        ),
        Ok(2)
    );
}

#[test]
fn shifts_read_the_count_from_the_second_register() {
    assert_eq!(
        run(
            vec![Inst::Store(3, 0), Inst::Store(4, 1), Inst::Shl(0, 1), Inst::Result(1)],
            vec![]
        ),
        Ok(48)
    );
    assert_eq!(
        run(
            vec![Inst::Store(48, 0), Inst::Store(4, 1), Inst::Shr(0, 1), Inst::Result(1)],
            vec![]
        ),
        Ok(3)
    );
}

#[test]
fn oversized_shift_counts_saturate_to_zero() {
    assert_eq!(
        run(
            vec![Inst::Store(3, 0), Inst::Store(40, 1), Inst::Shl(0, 1), Inst::Result(1)],
            vec![]
        ),
        Ok(0)
    );
    assert_eq!(
        run(
            vec![Inst::Store(3, 0), Inst::Store(-1, 1), Inst::Shr(0, 1), Inst::Result(1)],
            vec![]
        ),
        Ok(0)
    );
}

#[test]
fn write_and_load_round_trip_through_the_backing_store() {
    assert_eq!(
        run(
            vec![
                Inst::Store(7, 0),
                Inst::Write(0, 5),
                Inst::Store(0, 0),
                Inst::Load(5, 1),
                Inst::Result(1),
            ],
            vec![]
        ),
        Ok(7)
    );
}

#[test]
fn transfer_parses_caller_supplied_text() {
    let code = vec![Inst::Transfer("x".to_string(), 0), Inst::Result(0)];
    assert_eq!(run(code.clone(), vec![("x", "-12")]), Ok(-12));
    assert_eq!(run(code.clone(), vec![("x", "+12")]), Ok(12));
    assert_eq!(
        run(code.clone(), vec![("x", "-2147483648")]),
        Ok(i32::MIN)
    );
    assert_eq!(
        run(code.clone(), vec![("x", "2147483648")]),
        Err(LpErr::Interpret(RuntimeError::NotANumber))
    );
    assert_eq!(
        run(code.clone(), vec![("x", "12a")]),
        Err(LpErr::Interpret(RuntimeError::NotANumber))
    );
    assert_eq!(
        run(code.clone(), vec![("x", "")]),
        Err(LpErr::Interpret(RuntimeError::EmptyVariable))
    );
    assert_eq!(
        run(code.clone(), vec![("y", "1")]),
        Err(LpErr::Interpret(RuntimeError::UnknownVariable))
    );
    let no_vars = Interpreter::with_config(&machine())
        .load_instructions(code)
        .run_to_end();
    assert_eq!(
        no_vars,
        Err(LpErr::Interpret(RuntimeError::NoVariablesLoaded))
    );
}

#[test]
fn reading_an_empty_register_is_an_error() {
    assert_eq!(
        run(vec![Inst::Add(0, 1), Inst::Result(1)], vec![]),
        Err(LpErr::Interpret(RuntimeError::UnknownRegister(0)))
    );
    assert_eq!(
        run(vec![Inst::Result(3)], vec![]),
        Err(LpErr::Interpret(RuntimeError::UnknownRegister(3)))
    );
}

#[test]
fn missing_divisor_is_reported_before_division() {
    assert_eq!(
        run(vec![Inst::Store(1, 0), Inst::Div(0, 1), Inst::Result(1)], vec![]),
        Err(LpErr::Interpret(RuntimeError::UnknownRegister(1)))
    );
}

#[test]
fn addresses_are_checked_at_run_time() {
    assert_eq!(
        run(
            vec![Inst::Store(1, 0), Inst::Write(0, 16), Inst::Result(0)],
            vec![]
        ),
        Err(LpErr::Interpret(RuntimeError::AddressOutOfRange(16)))
    );
    assert_eq!(
        run(vec![Inst::Load(99, 0), Inst::Result(0)], vec![]),
        Err(LpErr::Interpret(RuntimeError::AddressOutOfRange(99)))
    );
}

#[test]
fn running_past_the_end_is_no_result() {
    assert_eq!(
        run(vec![Inst::Store(1, 0)], vec![]),
        Err(LpErr::Interpret(RuntimeError::NoResult))
    );
    assert_eq!(
        run(vec![], vec![]),
        Err(LpErr::Interpret(RuntimeError::NoResult))
    );
}

#[test]
fn wrapping_arithmetic_on_overflow() {
    assert_eq!(
        run(
            vec![Inst::Store(i32::MAX, 0), Inst::Store(1, 1), Inst::Add(0, 1), Inst::Result(1)],
            vec![]
        ),
        Ok(i32::MIN)
    );
    assert_eq!(
        run(
            vec![Inst::Store(i32::MIN, 0), Inst::Store(-1, 1), Inst::Div(0, 1), Inst::Result(1)],
            vec![]
        ),
        Ok(i32::MIN)
    );
}

#[test]
fn stepwise_execution_reports_progress() {
    let mut interp = Interpreter::with_config(&machine())
        .load_instructions(vec![Inst::Store(5, 0), Inst::Result(0)])
        .with_variables(vec![]);
    assert_eq!(interp.program_counter(), 0);
    assert!(matches!(interp.step(), Ok(InterpreterState::Continue)));
    assert_eq!(interp.program_counter(), 1);
    assert_eq!(interp.reg_store[0], Some(5));
    assert!(matches!(interp.step(), Ok(InterpreterState::Finished(5))));
    assert!(matches!(
        interp.step(),
        Err(LpErr::Interpret(RuntimeError::NoResult))
    ));
}

#[test]
fn reset_rewinds_and_clears_the_machine() {
    let mut interp = Interpreter::with_config(&machine())
        .load_instructions(vec![Inst::Store(5, 0), Inst::Write(0, 2), Inst::Result(0)])
        .with_variables(vec![]);
    assert!(matches!(interp.step(), Ok(InterpreterState::Continue)));
    assert!(matches!(interp.step(), Ok(InterpreterState::Continue)));
    assert_eq!(interp.ram[2], 5);
    interp.reset();
    assert_eq!(interp.program_counter(), 0);
    assert_eq!(interp.ram[2], 0);
    assert!(interp.reg_store.iter().all(|r| r.is_none()));
    assert!(matches!(interp.step(), Ok(InterpreterState::Continue)));
}

#[test]
fn interpret_ir_runs_a_fresh_machine() {
    let code = vec![Inst::Transfer("n".to_string(), 0), Inst::Store(2, 1), Inst::Mul(0, 1), Inst::Result(1)];
    let result = interpret_ir(
        code,
        vec![("n".to_string(), "21".to_string())],
        &machine(),
    );
    assert_eq!(result, Ok(42));
}
