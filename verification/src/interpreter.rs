//! The interpreter for the generated instruction streams: a register file, a
//! fixed-size backing store and a program counter, executed one instruction
//! at a time. The whole execution is pinned down by the spec functions
//! `step_model` and `run_model`.

use vstd::prelude::*;
use crate::options::InterpreterOptions;
use crate::semantics::apply_op;
use crate::semantics::{all_digit_chars, digits_value, is_digit_char, lemma_digits_value_nonneg,
    lemma_digits_value_prefix, parse_i32_model};
use crate::types::{Inst, InstV, LpErr, Operator, Reg, RuntimeError, insts_model, lemma_inst_model};

verus! {

/// State of the interpreter after executing a single execution step.
pub enum InterpreterState {
    /// Continue execution with the next instruction.
    Continue,
    /// The execution terminated successfully.
    Finished(i32),
}

/// The view of the caller-supplied variable map: name/text pairs in order.
pub open spec fn vars_model(vars: Seq<(String, String)>) -> Seq<(Seq<char>, Seq<char>)> {
    vars.map(|i: int, p: (String, String)| (p.0@, p.1@))
}

/// The view of an optional variable map.
pub open spec fn opt_vars_model(vars: Option<Vec<(String, String)>>) -> Option<
    Seq<(Seq<char>, Seq<char>)>,
> {
    match vars {
        None => None,
        Some(v) => Some(vars_model(v@)),
    }
}

/// The text bound to a name: the first matching pair wins.
pub open spec fn lookup_model(vs: Seq<(Seq<char>, Seq<char>)>, name: Seq<char>) -> Option<
    Seq<char>,
>
    decreases vs.len(),
{
    if vs.len() == 0 {
        None
    } else if vs[0].0 == name {
        Some(vs[0].1)
    } else {
        lookup_model(vs.drop_first(), name)
    }
}

proof fn lemma_lookup_none(vs: Seq<(Seq<char>, Seq<char>)>, name: Seq<char>)
    requires
        forall|k: int| 0 <= k < vs.len() ==> (#[trigger] vs[k]).0 != name,
    ensures
        lookup_model(vs, name) is None,
    decreases vs.len(),
{
    if vs.len() > 0 {
        lemma_lookup_none(vs.drop_first(), name);
    }
}

proof fn lemma_lookup_at(vs: Seq<(Seq<char>, Seq<char>)>, name: Seq<char>, i: int)
    requires
        0 <= i < vs.len(),
        forall|k: int| 0 <= k < i ==> (#[trigger] vs[k]).0 != name,
        vs[i].0 == name,
    ensures
        lookup_model(vs, name) == Some(vs[i].1),
    decreases i,
{
    if i > 0 {
        lemma_lookup_at(vs.drop_first(), name, i - 1);
    }
}

/// Finds the text bound to a name, first match first.
fn lookup_var(vars: &Vec<(String, String)>, name: &String) -> (r: Option<String>)
    ensures
        match r {
            Some(text) => lookup_model(vars_model(vars@), name@) == Some(text@),
            None => lookup_model(vars_model(vars@), name@) is None,
        },
{
    let ghost vs = vars_model(vars@);
    let mut i: usize = 0;
    while i < vars.len()
        invariant
            vs == vars_model(vars@),
            i <= vars@.len(),
            forall|k: int| 0 <= k < i ==> (#[trigger] vs[k]).0 != name@,
        decreases vars@.len() - i,
    {
        proof {
            assert(vs[i as int] == (vars@[i as int].0@, vars@[i as int].1@));
        }
        if vars[i].0.eq(name) {
            proof {
                lemma_lookup_at(vs, name@, i as int);
            }
            return Some(vars[i].1.clone());
        }
        i = i + 1;
    }
    proof {
        lemma_lookup_none(vs, name@);
    }
    None
}

/// Parses the text supplied for a variable as a 32-bit signed integer.
fn parse_int_text(s: &str) -> (r: Option<i32>)
    ensures
        r == parse_i32_model(s@),
{
    let n = s.unicode_len();
    if n == 0 {
        return None;
    }
    let first = s.get_char(0);
    let neg = first == '-';
    let start: usize = if first == '-' || first == '+' {
        1
    } else {
        0
    };
    let ghost ds = if start == 1 {
        s@.drop_first()
    } else {
        s@
    };
    if n == start {
        return None;
    }
    let mut acc: u64 = 0;
    let mut i: usize = start;
    while i < n
        invariant
            n == s@.len(),
            1 <= n,
            start <= i <= n,
            start < n,
            start == 0 || start == 1,
            (start == 1) == (s@[0] == '-' || s@[0] == '+'),
            neg == (s@[0] == '-'),
            start == 1 ==> ds == s@.drop_first(),
            start == 0 ==> ds == s@,
            ds.len() == n - start,
            forall|k: int| 0 <= k < i - start ==> is_digit_char(#[trigger] ds[k]),
            acc == digits_value(ds.take(i - start)),
            acc <= 0x8000_0000,
        decreases n - i,
    {
        let c = s.get_char(i);
        let d = c as u32;
        proof {
            if start == 1 {
                assert(ds == s@.drop_first());
                assert(ds[i - 1] == s@.drop_first()[i - 1]);
                assert(s@.drop_first()[i - 1] == s@[i as int]);
                assert(ds[i - start] == s@[i as int]);
            } else {
                assert(ds == s@);
                assert(ds[i - start] == s@[i as int]);
            }
        }
        if d < 48 || d > 57 {
            proof {
                assert(!all_digit_chars(ds)) by {
                    assert(!is_digit_char(ds[i - start]));
                }
            }
            return None;
        }
        proof {
            assert(ds.take(i - start + 1).drop_last() =~= ds.take(i - start));
            assert(ds.take(i - start + 1).last() == ds[i - start]);
        }
        acc = acc * 10 + ((d - 48) as u64);
        i = i + 1;
        if acc > 0x8000_0000 {
            proof {
                if all_digit_chars(ds) {
                    lemma_digits_value_prefix(ds, i - start);
                    lemma_digits_value_nonneg(ds);
                    assert(digits_value(ds) > 0x8000_0000);
                }
            }
            return None;
        }
    }
    proof {
        assert(ds.take(n - start) =~= ds);
    }
    if neg {
        if acc == 0x8000_0000 {
            Some(i32::MIN)
        } else {
            Some(-(acc as i32))
        }
    } else {
        if acc == 0x8000_0000 {
            None
        } else {
            Some(acc as i32)
        }
    }
}

/// What one execution step yields: a changed machine, or the final value.
pub enum StepV {
    /// Execution goes on with these register and backing-store contents.
    Continue(Seq<Option<i32>>, Seq<i32>),
    /// A `Result` instruction ended execution with this value.
    Finished(i32),
}

/// One binary instruction: both operand registers must hold values; the
/// result lands in the second operand register. Operands are read first
/// operand first, so a missing first operand is reported over a missing
/// second one.
pub open spec fn binop_step(
    op: Operator,
    a: Reg,
    b: Reg,
    regs: Seq<Option<i32>>,
    ram: Seq<i32>,
) -> Result<StepV, RuntimeError> {
    if regs[a as int] is None {
        Err(RuntimeError::UnknownRegister(a))
    } else if regs[b as int] is None {
        Err(RuntimeError::UnknownRegister(b))
    } else {
        Ok(
            StepV::Continue(
                regs.update(
                    b as int,
                    Some(apply_op(op, regs[a as int]->Some_0, regs[b as int]->Some_0)->Some_0),
                ),
                ram,
            ),
        )
    }
}

/// The semantics of one instruction, exactly as `Interpreter::step` executes
/// it.
pub open spec fn step_model(
    inst: InstV,
    regs: Seq<Option<i32>>,
    ram: Seq<i32>,
    vars: Option<Seq<(Seq<char>, Seq<char>)>>,
) -> Result<StepV, RuntimeError> {
    match inst {
        InstV::Add(a, b) => binop_step(Operator::Add, a, b, regs, ram),
        InstV::Sub(a, b) => binop_step(Operator::Sub, a, b, regs, ram),
        InstV::Mul(a, b) => binop_step(Operator::Mul, a, b, regs, ram),
        InstV::Div(a, b) => {
            if regs[b as int] is None {
                Err(RuntimeError::UnknownRegister(b))
            } else if regs[b as int]->Some_0 == 0 {
                Err(RuntimeError::DivisionByZero)
            } else {
                binop_step(Operator::Div, a, b, regs, ram)
            }
        },
        InstV::Shl(a, b) => binop_step(Operator::Shl, a, b, regs, ram),
        InstV::Shr(a, b) => binop_step(Operator::Shr, a, b, regs, ram),
        InstV::Store(n, r) => Ok(StepV::Continue(regs.update(r as int, Some(n)), ram)),
        InstV::Transfer(name, r) => match vars {
            None => Err(RuntimeError::NoVariablesLoaded),
            Some(vs) => match lookup_model(vs, name) {
                None => Err(RuntimeError::UnknownVariable),
                Some(text) => {
                    if text.len() == 0 {
                        Err(RuntimeError::EmptyVariable)
                    } else {
                        match parse_i32_model(text) {
                            None => Err(RuntimeError::NotANumber),
                            Some(v) => Ok(StepV::Continue(regs.update(r as int, Some(v)), ram)),
                        }
                    }
                },
            },
        },
        InstV::Result(r) => {
            if regs[r as int] is None {
                Err(RuntimeError::UnknownRegister(r))
            } else {
                Ok(StepV::Finished(regs[r as int]->Some_0))
            }
        },
        InstV::Write(r, addr) => {
            if addr >= ram.len() {
                Err(RuntimeError::AddressOutOfRange(addr))
            } else if regs[r as int] is None {
                Err(RuntimeError::UnknownRegister(r))
            } else {
                Ok(StepV::Continue(regs, ram.update(addr as int, regs[r as int]->Some_0)))
            }
        },
        InstV::Load(addr, r) => {
            if addr >= ram.len() {
                Err(RuntimeError::AddressOutOfRange(addr))
            } else {
                Ok(StepV::Continue(regs.update(r as int, Some(ram[addr as int])), ram))
            }
        },
    }
}

/// Executing a whole instruction stream from a given machine state: steps
/// run in order until a `Result` ends them; running off the end without one
/// is an error.
pub open spec fn run_model(
    insts: Seq<InstV>,
    regs: Seq<Option<i32>>,
    ram: Seq<i32>,
    vars: Option<Seq<(Seq<char>, Seq<char>)>>,
) -> Result<i32, RuntimeError>
    decreases insts.len(),
{
    if insts.len() == 0 {
        Err(RuntimeError::NoResult)
    } else {
        match step_model(insts[0], regs, ram, vars) {
            Err(e) => Err(e),
            Ok(StepV::Finished(v)) => Ok(v),
            Ok(StepV::Continue(regs2, ram2)) => run_model(insts.drop_first(), regs2, ram2, vars),
        }
    }
}

/// A runtime outcome wrapped into the toolchain error type.
pub open spec fn lift_run(r: Result<i32, RuntimeError>) -> Result<i32, LpErr> {
    match r {
        Ok(v) => Ok(v),
        Err(e) => Err(LpErr::Interpret(e)),
    }
}

/// The freshly initialized register file: no register holds a value.
pub open spec fn init_regs() -> Seq<Option<i32>> {
    Seq::new(256, |i: int| None)
}

/// The freshly initialized backing store: all cells zero.
pub open spec fn init_ram(n: nat) -> Seq<i32> {
    Seq::new(n, |i: int| 0i32)
}

/// Reads the value of a register, or reports it unknown.
fn check_store_contains(store: &Vec<Option<i32>>, key: Reg) -> (r: Result<i32, LpErr>)
    requires
        store@.len() == 256,
    ensures
        match r {
            Ok(v) => store@[key as int] == Some(v),
            Err(e) => store@[key as int] is None && e == LpErr::Interpret(
                RuntimeError::UnknownRegister(key),
            ),
        },
{
    match store[key as usize] {
        Some(v) => Ok(v),
        None => Err(LpErr::Interpret(RuntimeError::UnknownRegister(key))),
    }
}

/// Runs one `Add`, `Sub`, `Mul` or `Div` instruction against the register
/// file; the divisor has already been checked against zero.
fn run_binop(a: Reg, b: Reg, op: Operator, reg_store: &mut Vec<Option<i32>>) -> (r: Result<
    (),
    LpErr,
>)
    requires
        old(reg_store)@.len() == 256,
        op is Add || op is Sub || op is Mul || op is Div,
        op is Div ==> (old(reg_store)@[b as int] matches Some(d) && d != 0),
    ensures
        final(reg_store)@.len() == 256,
        match r {
            Ok(_) => old(reg_store)@[a as int] is Some && old(reg_store)@[b as int] is Some
                && final(reg_store)@ == old(reg_store)@.update(
                b as int,
                Some(
                    apply_op(
                        op,
                        old(reg_store)@[a as int]->Some_0,
                        old(reg_store)@[b as int]->Some_0,
                    )->Some_0,
                ),
            ),
            Err(e) => final(reg_store)@ == old(reg_store)@ && ((old(reg_store)@[a as int] is None
                && e == LpErr::Interpret(RuntimeError::UnknownRegister(a))) || (old(
                reg_store,
            )@[a as int] is Some && old(reg_store)@[b as int] is None && e == LpErr::Interpret(
                RuntimeError::UnknownRegister(b),
            ))),
        },
{
    let va = match check_store_contains(reg_store, a) {
        Ok(v) => v,
        Err(e) => return Err(e),
    };
    let vb = match check_store_contains(reg_store, b) {
        Ok(v) => v,
        Err(e) => return Err(e),
    };
    let result: i32 = match op {
        Operator::Add => va.wrapping_add(vb),
        Operator::Sub => va.wrapping_sub(vb),
        Operator::Mul => va.wrapping_mul(vb),
        _ => {
            match va.checked_div(vb) {
                Some(q) => q,
                None => i32::MIN,
            }
        },
    };
    reg_store.set(b as usize, Some(result));
    Ok(())
}

/// Runs one `Shl` or `Shr` instruction against the register file. The shift
/// count is the value of the second register read as unsigned; counts of 32
/// or more yield zero.
fn run_shiftop(a: Reg, b: Reg, op: Operator, reg_store: &mut Vec<Option<i32>>) -> (r: Result<
    (),
    LpErr,
>)
    requires
        old(reg_store)@.len() == 256,
        op is Shl || op is Shr,
    ensures
        final(reg_store)@.len() == 256,
        match r {
            Ok(_) => old(reg_store)@[a as int] is Some && old(reg_store)@[b as int] is Some
                && final(reg_store)@ == old(reg_store)@.update(
                b as int,
                Some(
                    apply_op(
                        op,
                        old(reg_store)@[a as int]->Some_0,
                        old(reg_store)@[b as int]->Some_0,
                    )->Some_0,
                ),
            ),
            Err(e) => final(reg_store)@ == old(reg_store)@ && ((old(reg_store)@[a as int] is None
                && e == LpErr::Interpret(RuntimeError::UnknownRegister(a))) || (old(
                reg_store,
            )@[a as int] is Some && old(reg_store)@[b as int] is None && e == LpErr::Interpret(
                RuntimeError::UnknownRegister(b),
            ))),
        },
{
    let va = match check_store_contains(reg_store, a) {
        Ok(v) => v,
        Err(e) => return Err(e),
    };
    let vb = match check_store_contains(reg_store, b) {
        Ok(v) => v,
        Err(e) => return Err(e),
    };
    let count = vb as u32;
    let result: i32 = if count >= 32 {
        0
    } else {
        if matches!(op, Operator::Shl) {
            va.wrapping_shl(count)
        } else {
            va.wrapping_shr(count)
        }
    };
    proof {
        if count < 32 {
            assert(count % 32 == count);
        }
    }
    reg_store.set(b as usize, Some(result));
    Ok(())
}

/// Interpreter for the instruction set of the simulated machine.
///
/// The interpreter owns the register file and the backing store for the
/// duration of one run and exposes them for introspection.
pub struct Interpreter {
    /// The register file: one optional value per register index; `None`
    /// means the register holds no value yet.
    pub reg_store: Vec<Option<i32>>,
    /// The backing store used for spilled values.
    pub ram: Vec<i32>,
    /// Instruction list to be executed.
    pub instructions: Vec<Inst>,
    /// Program counter pointing to the next instruction to be executed.
    pub program_counter: usize,
    /// Input variable mapping.
    pub input_variables: Option<Vec<(String, String)>>,
}

impl Interpreter {
    /// The register file always has one slot per possible register index,
    /// and the program counter never points past the end of the stream.
    pub open spec fn wf(&self) -> bool {
        self.reg_store@.len() == 256 && self.program_counter <= self.instructions@.len()
    }

    /// The view of this interpreter's instruction stream.
    pub open spec fn insts(&self) -> Seq<InstV> {
        insts_model(self.instructions@)
    }

    /// The view of this interpreter's variable map.
    pub open spec fn vars(&self) -> Option<Seq<(Seq<char>, Seq<char>)>> {
        opt_vars_model(self.input_variables)
    }

    /// The index of the next instruction to execute.
    pub fn program_counter(&self) -> (r: usize)
        ensures
            r == self.pc(),
    {
        self.program_counter
    }

    /// The index of the next instruction, for contracts.
    pub open spec fn pc(&self) -> usize {
        self.program_counter
    }

    /// Instantiates a new interpreter with the given hardware configuration.
    pub fn with_config(hw: &InterpreterOptions) -> (r: Self)
        ensures
            r.wf(),
            r.reg_store@ == init_regs(),
            r.ram@ == init_ram(hw.num_cachelines as nat),
            r.insts() =~= Seq::<InstV>::empty(),
            r.pc() == 0,
            r.vars() is None,
    {
        let mut reg_store: Vec<Option<i32>> = Vec::new();
        let mut i: usize = 0;
        while i < 256
            invariant
                i <= 256,
                reg_store@.len() == i,
                forall|k: int| 0 <= k < i ==> reg_store@[k] is None,
            decreases 256 - i,
        {
            reg_store.push(None);
            i = i + 1;
        }
        let mut ram: Vec<i32> = Vec::new();
        let mut j: usize = 0;
        while j < hw.num_cachelines
            invariant
                j <= hw.num_cachelines,
                ram@.len() == j,
                forall|k: int| 0 <= k < j ==> ram@[k] == 0i32,
            decreases hw.num_cachelines - j,
        {
            ram.push(0);
            j = j + 1;
        }
        let r = Interpreter {
            reg_store,
            ram,
            instructions: Vec::new(),
            program_counter: 0,
            input_variables: None,
        };
        proof {
            assert(r.reg_store@ =~= init_regs());
            assert(r.ram@ =~= init_ram(hw.num_cachelines as nat));
        }
        r
    }

    /// Loads a list of instructions into the interpreter.
    pub fn load_instructions(self, instructions: Vec<Inst>) -> (r: Self)
        ensures
            r.insts() == insts_model(instructions@),
            r.reg_store == self.reg_store,
            r.ram == self.ram,
            r.pc() == self.pc(),
            r.vars() == self.vars(),
            self.wf() && self.pc() <= instructions@.len() ==> r.wf(),
    {
        Interpreter { instructions, ..self }
    }

    /// Maps inputs to variables.
    pub fn with_variables(self, input_variables: Vec<(String, String)>) -> (r: Self)
        ensures
            r.vars() == Some(vars_model(input_variables@)),
            r.reg_store == self.reg_store,
            r.ram == self.ram,
            r.pc() == self.pc(),
            r.insts() == self.insts(),
            r.instructions == self.instructions,
            r.program_counter == self.program_counter,
            r.wf() == self.wf(),
    {
        Interpreter { input_variables: Some(input_variables), ..self }
    }

    /// Executes a single step of the program.
    pub fn step(&mut self) -> (r: Result<InterpreterState, LpErr>)
        requires
            old(self).wf(),
        ensures
            final(self).wf(),
            final(self).insts() == old(self).insts(),
            final(self).vars() == old(self).vars(),
            ({
                let m = old(self).insts();
                let pc = old(self).pc() as int;
                if pc >= m.len() {
                    r == Err::<InterpreterState, LpErr>(LpErr::Interpret(RuntimeError::NoResult))
                        && final(self).reg_store@ == old(self).reg_store@
                        && final(self).ram@ == old(self).ram@
                        && final(self).pc() == old(self).pc()
                } else {
                    match step_model(m[pc], old(self).reg_store@, old(self).ram@, old(self).vars()) {
                        Err(e) => r == Err::<InterpreterState, LpErr>(LpErr::Interpret(e))
                            && final(self).reg_store@ == old(self).reg_store@
                            && final(self).ram@ == old(self).ram@
                            && final(self).pc() == old(self).pc(),
                        Ok(StepV::Finished(v)) => r == Ok::<InterpreterState, LpErr>(
                            InterpreterState::Finished(v),
                        ) && final(self).reg_store@ == old(self).reg_store@
                            && final(self).ram@ == old(self).ram@
                            && final(self).pc() == old(self).pc() + 1,
                        Ok(StepV::Continue(regs2, ram2)) => r == Ok::<InterpreterState, LpErr>(
                            InterpreterState::Continue,
                        ) && final(self).reg_store@ == regs2
                            && final(self).ram@ == ram2
                            && final(self).pc() == old(self).pc() + 1,
                    }
                }
            }),
    {
        if self.program_counter >= self.instructions.len() {
            return Err(LpErr::Interpret(RuntimeError::NoResult));
        }
        let ghost m = old(self).insts();
        let ghost pc = old(self).pc() as int;
        proof {
            assert(m[pc] == self.instructions@[pc].model());
            lemma_inst_model(&self.instructions@[pc]);
        }

        match &self.instructions[self.program_counter] {
            Inst::Add(a, b) => {
                match run_binop(*a, *b, Operator::Add, &mut self.reg_store) {
                    Ok(_) => (),
                    Err(e) => return Err(e),
                }
            },
            Inst::Sub(a, b) => {
                match run_binop(*a, *b, Operator::Sub, &mut self.reg_store) {
                    Ok(_) => (),
                    Err(e) => return Err(e),
                }
            },
            Inst::Mul(a, b) => {
                match run_binop(*a, *b, Operator::Mul, &mut self.reg_store) {
                    Ok(_) => (),
                    Err(e) => return Err(e),
                }
            },
            Inst::Div(a, b) => {
                let divisor = match check_store_contains(&self.reg_store, *b) {
                    Ok(v) => v,
                    Err(e) => return Err(e),
                };
                if divisor == 0 {
                    return Err(LpErr::Interpret(RuntimeError::DivisionByZero));
                }
                match run_binop(*a, *b, Operator::Div, &mut self.reg_store) {
                    Ok(_) => (),
                    Err(e) => return Err(e),
                }
            },
            Inst::Shl(a, b) => {
                match run_shiftop(*a, *b, Operator::Shl, &mut self.reg_store) {
                    Ok(_) => (),
                    Err(e) => return Err(e),
                }
            },
            Inst::Shr(a, b) => {
                match run_shiftop(*a, *b, Operator::Shr, &mut self.reg_store) {
                    Ok(_) => (),
                    Err(e) => return Err(e),
                }
            },
            Inst::Store(n, reg) => {
                self.reg_store.set(*reg as usize, Some(*n));
            },
            Inst::Transfer(var, reg) => {
                let text = match &self.input_variables {
                    None => {
                        return Err(LpErr::Interpret(RuntimeError::NoVariablesLoaded));
                    },
                    Some(vars) => match lookup_var(vars, var) {
                        None => {
                            return Err(LpErr::Interpret(RuntimeError::UnknownVariable));
                        },
                        Some(text) => text,
                    },
                };
                if text.as_str().is_empty() {
                    return Err(LpErr::Interpret(RuntimeError::EmptyVariable));
                }
                let val = match parse_int_text(text.as_str()) {
                    None => {
                        return Err(LpErr::Interpret(RuntimeError::NotANumber));
                    },
                    Some(v) => v,
                };
                self.reg_store.set(*reg as usize, Some(val));
            },
            Inst::Result(r) => {
                let v = match check_store_contains(&self.reg_store, *r) {
                    Ok(v) => v,
                    Err(e) => return Err(e),
                };
                self.program_counter = self.program_counter + 1;
                return Ok(InterpreterState::Finished(v));
            },
            Inst::Write(r, addr) => {
                if *addr >= self.ram.len() {
                    return Err(LpErr::Interpret(RuntimeError::AddressOutOfRange(*addr)));
                }
                let v = match check_store_contains(&self.reg_store, *r) {
                    Ok(v) => v,
                    Err(e) => return Err(e),
                };
                self.ram.set(*addr, v);
            },
            Inst::Load(addr, r) => {
                if *addr >= self.ram.len() {
                    return Err(LpErr::Interpret(RuntimeError::AddressOutOfRange(*addr)));
                }
                let v = self.ram[*addr];
                self.reg_store.set(*r as usize, Some(v));
            },
        }

        self.program_counter = self.program_counter + 1;
        Ok(InterpreterState::Continue)
    }

    /// Executes the instruction list until the interpreter either terminates
    /// or encounters an error.
    #[verifier::loop_isolation(false)]
    pub fn run_to_end(self) -> (r: Result<i32, LpErr>)
        requires
            self.wf(),
        ensures
            r == lift_run(
                run_model(
                    self.insts().skip(self.pc() as int),
                    self.reg_store@,
                    self.ram@,
                    self.vars(),
                ),
            ),
    {
        let ghost goal = run_model(
            self.insts().skip(self.pc() as int),
            self.reg_store@,
            self.ram@,
            self.vars(),
        );
        let mut interp = self;
        loop
            invariant
                interp.wf(),
                goal == run_model(
                    interp.insts().skip(interp.pc() as int),
                    interp.reg_store@,
                    interp.ram@,
                    interp.vars(),
                ),
            decreases interp.insts().len() - interp.pc(),
        {
            let ghost m = interp.insts();
            let ghost pc = interp.pc() as int;
            let ghost suffix = m.skip(pc);
            proof {
                if pc < m.len() {
                    assert(suffix.len() > 0);
                    assert(suffix[0] == m[pc]);
                    assert(suffix.drop_first() =~= m.skip(pc + 1));
                } else {
                    assert(suffix.len() == 0);
                }
            }
            match interp.step() {
                Err(e) => {
                    return Err(e);
                },
                Ok(InterpreterState::Finished(res)) => {
                    return Ok(res);
                },
                Ok(InterpreterState::Continue) => (),
            }
        }
    }

    /// Clears the registers, zeroes the backing store and rewinds the
    /// program counter; the loaded instructions and variables stay.
    pub fn reset(&mut self)
        requires
            old(self).wf(),
        ensures
            final(self).wf(),
            final(self).reg_store@ == init_regs(),
            final(self).ram@ == init_ram(old(self).ram@.len()),
            final(self).pc() == 0,
            final(self).insts() == old(self).insts(),
            final(self).vars() == old(self).vars(),
    {
        self.program_counter = 0;
        let mut i: usize = 0;
        while i < self.reg_store.len()
            invariant
                old(self).wf(),
                self.reg_store@.len() == 256,
                i <= 256,
                forall|k: int| 0 <= k < i ==> self.reg_store@[k] is None,
                self.ram == old(self).ram,
                self.instructions == old(self).instructions,
                self.input_variables == old(self).input_variables,
                self.program_counter == 0,
            decreases 256 - i,
        {
            self.reg_store.set(i, None);
            i = i + 1;
        }
        let mut j: usize = 0;
        while j < self.ram.len()
            invariant
                self.reg_store@.len() == 256,
                forall|k: int| 0 <= k < 256 ==> self.reg_store@[k] is None,
                self.ram@.len() == old(self).ram@.len(),
                j <= self.ram@.len(),
                forall|k: int| 0 <= k < j ==> self.ram@[k] == 0i32,
                self.instructions == old(self).instructions,
                self.input_variables == old(self).input_variables,
                self.program_counter == 0,
            decreases self.ram@.len() - j,
        {
            self.ram.set(j, 0);
            j = j + 1;
        }
        proof {
            assert(self.reg_store@ =~= init_regs());
            assert(self.ram@ =~= init_ram(old(self).ram@.len()));
        }
    }
}

/// Compiles a whole instruction stream against a fresh machine and runs it
/// to completion.
pub fn interpret_ir(
    instructions: Vec<Inst>,
    input_variables: Vec<(String, String)>,
    hw: &InterpreterOptions,
) -> (r: Result<i32, LpErr>)
    ensures
        r == lift_run(
            run_model(
                insts_model(instructions@),
                init_regs(),
                init_ram(hw.num_cachelines as nat),
                Some(vars_model(input_variables@)),
            ),
        ),
{
    let ghost im = insts_model(instructions@);
    let interp = Interpreter::with_config(hw).load_instructions(instructions).with_variables(
        input_variables,
    );
    proof {
        assert(interp.wf());
        assert(interp.insts().skip(interp.pc() as int) =~= im);
    }
    interp.run_to_end()
}

} // verus!
