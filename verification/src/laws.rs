//! The laws of the toolchain: statements that tie the spec functions of the
//! parser, the passes, the code generator and the interpreter together,
//! proved once and for all inputs.

use vstd::prelude::*;
use crate::cache_optimization::{cache_opt_model, keeps_inst, load_addresses};
use crate::compiler::{
    CompileOptions, GenState, Location, assoc_get, assoc_set, ast_to_ir_model, binop_inst,
    combine_model, compile_model, create_load_model, create_write_model, esize, fetch_model,
    generate_model, init_gen_state, leaf_model, pipeline_model,
};
use crate::constant_folding::fold_model;
use crate::interpreter::{StepV, init_ram, init_regs, run_model, step_model};
use crate::parser::run_parser_model;
use crate::semantics::{apply_op, div_wrap, eval_const, mul_wrap, shl_sat, shr_sat};
use crate::shift_replacement::{is_pow2_literal, lemma_log2_bound, log2, shift_amount};
use vstd::arithmetic::power2::pow2;
use crate::types::{ExprV, InstV, IrError, MemAddr, Operator, Reg, RuntimeError};

verus! {

/// Whether one instruction stays inside the machine: every register index
/// below the register count, every cell index below the backing-store size.
pub open spec fn inst_bounded(i: InstV, nr: u8, nc: usize) -> bool {
    match i {
        InstV::Add(a, b) => a < nr && b < nr,
        InstV::Sub(a, b) => a < nr && b < nr,
        InstV::Mul(a, b) => a < nr && b < nr,
        InstV::Div(a, b) => a < nr && b < nr,
        InstV::Shl(a, b) => a < nr && b < nr,
        InstV::Shr(a, b) => a < nr && b < nr,
        InstV::Store(_, r) => r < nr,
        InstV::Transfer(_, r) => r < nr,
        InstV::Result(r) => r < nr,
        InstV::Write(r, addr) => r < nr && addr < nc,
        InstV::Load(addr, r) => r < nr && addr < nc,
    }
}

/// Whether a whole stream stays inside the machine.
pub open spec fn code_bounded(code: Seq<InstV>, nr: u8, nc: usize) -> bool {
    forall|k: int| 0 <= k < code.len() ==> inst_bounded(#[trigger] code[k], nr, nc)
}

/// Whether a recorded location stays inside the machine.
pub open spec fn loc_bounded(l: Location, nr: u8, nc: usize) -> bool {
    match l {
        Location::Reg(r) => r < nr,
        Location::Ram(a) => a < nc,
    }
}

/// Whether every recorded location stays inside the machine.
pub open spec fn mmap_bounded(m: Seq<(ExprV, Location)>, nr: u8, nc: usize) -> bool {
    forall|k: int| 0 <= k < m.len() ==> loc_bounded((#[trigger] m[k]).1, nr, nc)
}

/// Whether a whole generator state stays inside the machine.
pub open spec fn st_bounded(st: GenState, nr: u8, nc: usize) -> bool {
    &&& st.rmap.len() == nr
    &&& st.next_reg < nr
    &&& st.ram_idx < nc
    &&& code_bounded(st.code, nr, nc)
    &&& mmap_bounded(st.mmap, nr, nc)
}

proof fn lemma_assoc_get_bounded(m: Seq<(ExprV, Location)>, k: ExprV, nr: u8, nc: usize)
    requires
        mmap_bounded(m, nr, nc),
    ensures
        assoc_get(m, k) matches Some(l) ==> loc_bounded(l, nr, nc),
    decreases m.len(),
{
    if m.len() > 0 && m[0].0 != k {
        lemma_assoc_get_bounded(m.drop_first(), k, nr, nc);
    }
}

proof fn lemma_assoc_set_bounded(m: Seq<(ExprV, Location)>, k: ExprV, v: Location, nr: u8, nc: usize)
    requires
        mmap_bounded(m, nr, nc),
        loc_bounded(v, nr, nc),
    ensures
        mmap_bounded(assoc_set(m, k, v), nr, nc),
    decreases m.len(),
{
    if m.len() > 0 && m[0].0 != k {
        lemma_assoc_set_bounded(m.drop_first(), k, v, nr, nc);
        let r = assoc_set(m, k, v);
        assert(forall|j: int|
            1 <= j < r.len() ==> (#[trigger] r[j]) == assoc_set(m.drop_first(), k, v)[j - 1]);
    }
}

proof fn lemma_create_write_bounded(exp: ExprV, st: GenState, nr: u8, nc: usize)
    requires
        nr > 0,
        nc > 0,
        st_bounded(st, nr, nc),
    ensures
        st_bounded(create_write_model(exp, st, nc), nr, nc),
        create_write_model(exp, st, nc).next_reg == st.next_reg,
        create_write_model(exp, st, nc).rmap == st.rmap,
        create_write_model(exp, st, nc).variables == st.variables,
{
    lemma_assoc_get_bounded(st.mmap, exp, nr, nc);
    match assoc_get(st.mmap, exp) {
        Some(Location::Reg(r)) => {
            lemma_assoc_set_bounded(st.mmap, exp, Location::Ram(st.ram_idx), nr, nc);
            let st2 = create_write_model(exp, st, nc);
            assert(forall|k: int|
                0 <= k < st.code.len() ==> st2.code[k] == #[trigger] st.code[k]);
            assert(st2.code.last() == InstV::Write(r, st.ram_idx));
            assert(code_bounded(st2.code, nr, nc));
        },
        _ => {},
    }
}

proof fn lemma_create_load_bounded(exp: ExprV, st: GenState, nr: u8, nc: usize)
    requires
        nr > 0,
        nc > 0,
        st_bounded(st, nr, nc),
    ensures
        st_bounded(create_load_model(exp, st, nr), nr, nc),
        create_load_model(exp, st, nr).ram_idx == st.ram_idx,
        create_load_model(exp, st, nr).rmap == st.rmap,
        create_load_model(exp, st, nr).variables == st.variables,
{
    lemma_assoc_get_bounded(st.mmap, exp, nr, nc);
    match assoc_get(st.mmap, exp) {
        Some(Location::Ram(addr)) => {
            lemma_assoc_set_bounded(st.mmap, exp, Location::Reg(st.next_reg), nr, nc);
            let st2 = create_load_model(exp, st, nr);
            assert(forall|k: int|
                0 <= k < st.code.len() ==> st2.code[k] == #[trigger] st.code[k]);
            assert(st2.code.last() == InstV::Load(addr, st.next_reg));
            assert(code_bounded(st2.code, nr, nc));
        },
        _ => {},
    }
}

proof fn lemma_fetch_bounded(cur_reg: Reg, e: ExprV, st: GenState, nr: u8, nc: usize)
    requires
        nr > 0,
        nc > 0,
        st_bounded(st, nr, nc),
        cur_reg < nr,
    ensures
        st_bounded(fetch_model(cur_reg, e, st, nr, nc).0, nr, nc),
        fetch_model(cur_reg, e, st, nr, nc).1 < nr,
{
    if st.rmap[cur_reg as int] != Some(e) {
        let target = st.next_reg;
        match st.rmap[target as int] {
            Some(old_expr) => {
                lemma_create_write_bounded(old_expr, st, nr, nc);
                let st1 = create_write_model(old_expr, st, nc);
                let st2 = GenState { rmap: st1.rmap.update(target as int, Some(e)), ..st1 };
                lemma_create_load_bounded(e, st2, nr, nc);
            },
            None => {
                let st2 = GenState { rmap: st.rmap.update(target as int, Some(e)), ..st };
                lemma_create_load_bounded(e, st2, nr, nc);
            },
        }
    }
}

proof fn lemma_leaf_bounded(ast: ExprV, inst: InstV, st: GenState, nr: u8, nc: usize)
    requires
        nr > 0,
        nc > 0,
        st_bounded(st, nr, nc),
        inst_bounded(inst, nr, nc),
    ensures
        st_bounded(leaf_model(ast, inst, st, nr, nc).0, nr, nc),
        leaf_model(ast, inst, st, nr, nc).1 < nr,
{
    let reg = st.next_reg;
    let st1 = match st.rmap[reg as int] {
        Some(old_expr) => create_write_model(old_expr, st, nc),
        None => st,
    };
    match st.rmap[reg as int] {
        Some(old_expr) => {
            lemma_create_write_bounded(old_expr, st, nr, nc);
        },
        None => {},
    }
    let st2 = GenState {
        rmap: st1.rmap.update(reg as int, Some(ast)),
        code: st1.code.push(inst),
        ..st1
    };
    assert(forall|k: int| 0 <= k < st1.code.len() ==> st2.code[k] == #[trigger] st1.code[k]);
    assert(code_bounded(st2.code, nr, nc));
    if assoc_get(st2.mmap, ast) is None {
        let st3 = GenState { mmap: st2.mmap.push((ast, Location::Reg(reg))), ..st2 };
        assert(forall|k: int|
            0 <= k < st2.mmap.len() ==> (#[trigger] st3.mmap[k]) == st2.mmap[k]);
        assert(mmap_bounded(st3.mmap, nr, nc));
    }
}

proof fn lemma_combine_bounded(
    ast: ExprV,
    op: Operator,
    left_reg: Reg,
    right_reg: Reg,
    st: GenState,
    nr: u8,
    nc: usize,
)
    requires
        nr > 0,
        nc > 0,
        st_bounded(st, nr, nc),
        left_reg < nr,
        right_reg < nr,
    ensures
        st_bounded(combine_model(ast, op, left_reg, right_reg, st).0, nr, nc),
        combine_model(ast, op, left_reg, right_reg, st).1 < nr,
{
    let st1 = GenState { code: st.code.push(binop_inst(op, left_reg, right_reg)), ..st };
    assert(forall|k: int| 0 <= k < st.code.len() ==> st1.code[k] == #[trigger] st.code[k]);
    assert(inst_bounded(binop_inst(op, left_reg, right_reg), nr, nc));
    assert(code_bounded(st1.code, nr, nc));
    let st2 = if st1.rmap[right_reg as int] is Some {
        GenState { rmap: st1.rmap.update(right_reg as int, Some(ast)), ..st1 }
    } else {
        st1
    };
    lemma_assoc_set_bounded(st2.mmap, ast, Location::Reg(right_reg), nr, nc);
}

proof fn lemma_ast_to_ir_bounded(ast: ExprV, st: GenState, nr: u8, nc: usize)
    requires
        nr > 0,
        nc > 0,
        st_bounded(st, nr, nc),
    ensures
        ast_to_ir_model(ast, st, nr, nc) matches Ok(p) ==> st_bounded(p.0, nr, nc) && p.1 < nr,
    decreases esize(ast),
{
    match ast {
        ExprV::Num(n) => {
            lemma_leaf_bounded(ast, InstV::Store(n, st.next_reg), st, nr, nc);
        },
        ExprV::Var(v) => {
            lemma_leaf_bounded(ast, InstV::Transfer(v, st.next_reg), st, nr, nc);
        },
        ExprV::UnaryOp(op, e) => {
            if op == Operator::Sub {
                lemma_ast_to_ir_bounded(ExprV::Num(0), st, nr, nc);
                match ast_to_ir_model(ExprV::Num(0), st, nr, nc) {
                    Err(_) => {},
                    Ok((st1, left_reg)) => {
                        lemma_ast_to_ir_bounded(*e, st1, nr, nc);
                        match ast_to_ir_model(*e, st1, nr, nc) {
                            Err(_) => {},
                            Ok((st2, right_reg)) => {
                                lemma_fetch_bounded(left_reg, ExprV::Num(0), st2, nr, nc);
                                let (st3, left_reg2) = fetch_model(
                                    left_reg,
                                    ExprV::Num(0),
                                    st2,
                                    nr,
                                    nc,
                                );
                                lemma_fetch_bounded(right_reg, *e, st3, nr, nc);
                                let (st4, right_reg2) = fetch_model(right_reg, *e, st3, nr, nc);
                                lemma_combine_bounded(
                                    ast,
                                    Operator::Sub,
                                    left_reg2,
                                    right_reg2,
                                    st4,
                                    nr,
                                    nc,
                                );
                            },
                        }
                    },
                }
            }
        },
        ExprV::BinaryOp(l, op, r) => {
            lemma_ast_to_ir_bounded(*l, st, nr, nc);
            match ast_to_ir_model(*l, st, nr, nc) {
                Err(_) => {},
                Ok((st1, left_reg)) => {
                    lemma_ast_to_ir_bounded(*r, st1, nr, nc);
                    match ast_to_ir_model(*r, st1, nr, nc) {
                        Err(_) => {},
                        Ok((st2, right_reg)) => {
                            lemma_fetch_bounded(left_reg, *l, st2, nr, nc);
                            let (st3, left_reg2) = fetch_model(left_reg, *l, st2, nr, nc);
                            lemma_fetch_bounded(right_reg, *r, st3, nr, nc);
                            let (st4, right_reg2) = fetch_model(right_reg, *r, st3, nr, nc);
                            lemma_combine_bounded(ast, op, left_reg2, right_reg2, st4, nr, nc);
                        },
                    }
                },
            }
        },
    }
}

/// The register ring bound: the generated instruction stream never
/// references a register index at or above the configured register count,
/// nor a backing-store cell at or above the configured cell count.
pub proof fn lemma_register_ring_bound(e: ExprV, nr: u8, nc: usize)
    requires
        nr > 0,
        nc > 0,
        generate_model(e, nr, nc) is Ok,
    ensures
        code_bounded(generate_model(e, nr, nc)->Ok_0.0, nr, nc),
{
    let st0 = init_gen_state(nr);
    assert(st_bounded(st0, nr, nc));
    lemma_ast_to_ir_bounded(e, st0, nr, nc);
    let (st, reg) = ast_to_ir_model(e, st0, nr, nc)->Ok_0;
    let code = st.code.push(InstV::Result(reg));
    assert(forall|k: int| 0 <= k < st.code.len() ==> code[k] == #[trigger] st.code[k]);
    assert(inst_bounded(code[code.len() - 1], nr, nc));
}

/// The register ring bound carries through dead-store elimination: the pass
/// only removes instructions.
pub proof fn lemma_ring_bound_after_cache_opt(code: Seq<InstV>, nr: u8, nc: usize)
    requires
        code_bounded(code, nr, nc),
    ensures
        code_bounded(cache_opt_model(code), nr, nc),
    decreases code.len(),
{
    let p = |inst: InstV| keeps_inst(code, inst);
    lemma_filter_subset(code, p);
    let out = code.filter(p);
    assert forall|k: int| 0 <= k < out.len() implies inst_bounded(#[trigger] out[k], nr, nc) by {
        assert(code.contains(out[k]));
        let j = choose|j: int| 0 <= j < code.len() && code[j] == out[k];
        assert(inst_bounded(code[j], nr, nc));
    }
}

proof fn lemma_filter_subset<A>(s: Seq<A>, p: spec_fn(A) -> bool)
    ensures
        forall|k: int| 0 <= k < s.filter(p).len() ==> s.contains(#[trigger] s.filter(p)[k]),
    decreases s.len(),
{
    reveal(Seq::filter);
    if s.len() > 0 {
        lemma_filter_subset(s.drop_last(), p);
        assert forall|k: int| 0 <= k < s.filter(p).len() implies s.contains(
            #[trigger] s.filter(p)[k],
        ) by {
            let out = s.filter(p);
            let sub = s.drop_last().filter(p);
            if k < sub.len() {
                assert(s.drop_last().contains(sub[k]));
                let j = choose|j: int| 0 <= j < s.drop_last().len() && s.drop_last()[j] == sub[k];
                assert(s[j] == out[k]);
            } else {
                assert(out[k] == s.last());
            }
        }
    }
}

/// The register ring bound for the whole pipeline: whatever passes are
/// chosen, a successful compilation yields a stream that stays inside the
/// machine it was compiled for.
pub proof fn lemma_compile_ring_bound(e: ExprV, options: CompileOptions, nr: u8, nc: usize)
    requires
        nr > 0,
        nc > 0,
        compile_model(e, options, nr, nc) is Ok,
    ensures
        code_bounded(compile_model(e, options, nr, nc)->Ok_0.0, nr, nc),
{
    let rewritten = pipeline_model(e, options);
    lemma_register_ring_bound(rewritten, nr, nc);
    if options.run_cache_optimization {
        lemma_ring_bound_after_cache_opt(generate_model(rewritten, nr, nc)->Ok_0.0, nr, nc);
    }
}


proof fn lemma_fold_const(e: ExprV, v: i32)
    requires
        eval_const(e) == Some(v),
    ensures
        fold_model(e) == ExprV::Num(v),
    decreases e,
{
    match e {
        ExprV::Num(_) => {},
        ExprV::Var(_) => {},
        ExprV::UnaryOp(op, e1) => {
            let v1 = eval_const(*e1)->Some_0;
            lemma_fold_const(*e1, v1);
        },
        ExprV::BinaryOp(l, op, r) => {
            let a = eval_const(*l)->Some_0;
            let b = eval_const(*r)->Some_0;
            lemma_fold_const(*l, a);
            lemma_fold_const(*r, b);
        },
    }
}

proof fn lemma_generate_literal(v: i32, nr: u8, nc: usize)
    requires
        nr > 0,
        nc > 0,
    ensures
        generate_model(ExprV::Num(v), nr, nc) == Ok::<(Seq<InstV>, Seq<Seq<char>>), IrError>(
            (seq![InstV::Store(v, 0), InstV::Result(0)], Seq::<Seq<char>>::empty()),
        ),
{
    let st0 = init_gen_state(nr);
    assert(st0.rmap[0] is None);
    assert(assoc_get(st0.mmap, ExprV::Num(v)) is None);
    let p = leaf_model(ExprV::Num(v), InstV::Store(v, st0.next_reg), st0, nr, nc);
    assert(p.0.code =~= seq![InstV::Store(v, 0)]);
    assert(p.1 == 0);
    assert(ast_to_ir_model(ExprV::Num(v), st0, nr, nc) == Ok::<(GenState, Reg), IrError>(p));
    assert(p.0.code.push(InstV::Result(0)) =~= seq![InstV::Store(v, 0), InstV::Result(0)]);
    assert(p.0.variables =~= Seq::<Seq<char>>::empty());
}

proof fn lemma_run_literal(v: i32, nc: usize, vars: Option<Seq<(Seq<char>, Seq<char>)>>)
    ensures
        run_model(
            seq![InstV::Store(v, 0), InstV::Result(0)],
            init_regs(),
            init_ram(nc as nat),
            vars,
        ) == Ok::<i32, RuntimeError>(v),
{
    let code = seq![InstV::Store(v, 0), InstV::Result(0)];
    let regs1 = init_regs().update(0, Some(v));
    assert(step_model(code[0], init_regs(), init_ram(nc as nat), vars) == Ok::<StepV, RuntimeError>(
        StepV::Continue(regs1, init_ram(nc as nat)),
    ));
    let rest = code.drop_first();
    assert(rest =~= seq![InstV::Result(0)]);
    assert(regs1[0] == Some(v));
    assert(step_model(rest[0], regs1, init_ram(nc as nat), vars) == Ok::<StepV, RuntimeError>(
        StepV::Finished(v),
    ));
    assert(run_model(rest, regs1, init_ram(nc as nat), vars) == Ok::<i32, RuntimeError>(v));
    assert(run_model(code, init_regs(), init_ram(nc as nat), vars) == run_model(
        rest,
        regs1,
        init_ram(nc as nat),
        vars,
    ));
}

/// Folding correctness: an expression of the surface language that holds no
/// variables and divides by no zero, once constant-folded, compiles to a
/// stream whose execution yields exactly the direct arithmetic evaluation
/// of the expression — on any machine and with any variable values.
pub proof fn lemma_folding_correct(
    e: ExprV,
    v: i32,
    nr: u8,
    nc: usize,
    vars: Option<Seq<(Seq<char>, Seq<char>)>>,
)
    requires
        nr > 0,
        nc > 0,
        eval_const(e) == Some(v),
    ensures
        generate_model(fold_model(e), nr, nc) matches Ok(p) && run_model(
            p.0,
            init_regs(),
            init_ram(nc as nat),
            vars,
        ) == Ok::<i32, RuntimeError>(v),
{
    lemma_fold_const(e, v);
    lemma_generate_literal(v, nr, nc);
    lemma_run_literal(v, nc, vars);
}

/// What compiling a source text and running the outcome yields, as one
/// mathematical function of the source, the options, the machine and the
/// variable values; `None` where compilation itself is refused. The
/// executable pipeline is pinned to this function by the contracts of
/// `Compiler::compile` and `Interpreter::run_to_end`.
pub open spec fn compile_and_run_model(
    src: Seq<char>,
    options: CompileOptions,
    nr: u8,
    nc: usize,
    vars: Seq<(Seq<char>, Seq<char>)>,
) -> Option<Result<i32, RuntimeError>> {
    match run_parser_model(src) {
        None => None,
        Some(e) => match compile_model(e, options, nr, nc) {
            Err(_) => None,
            Ok((code, _)) => Some(run_model(code, init_regs(), init_ram(nc as nat), Some(vars))),
        },
    }
}

/// Round-trip determinism: compiling a source text and running the result
/// is a pure function of the source, the chosen options, the machine and
/// the supplied inputs — two compilations and runs of the same data always
/// yield the same outcome.
pub proof fn lemma_round_trip_deterministic(
    src1: Seq<char>,
    src2: Seq<char>,
    options1: CompileOptions,
    options2: CompileOptions,
    nr1: u8,
    nr2: u8,
    nc1: usize,
    nc2: usize,
    vars1: Seq<(Seq<char>, Seq<char>)>,
    vars2: Seq<(Seq<char>, Seq<char>)>,
)
    requires
        src1 == src2,
        options1 == options2,
        nr1 == nr2,
        nc1 == nc2,
        vars1 == vars2,
    ensures
        compile_and_run_model(src1, options1, nr1, nc1, vars1) == compile_and_run_model(
            src2,
            options2,
            nr2,
            nc2,
            vars2,
        ),
{
}


proof fn lemma_run_filtered(
    insts: Seq<InstV>,
    p: spec_fn(InstV) -> bool,
    ls: Set<MemAddr>,
    regs: Seq<Option<i32>>,
    ram_a: Seq<i32>,
    ram_b: Seq<i32>,
    vars: Option<Seq<(Seq<char>, Seq<char>)>>,
    v: i32,
)
    requires
        run_model(insts, regs, ram_a, vars) == Ok::<i32, RuntimeError>(v),
        forall|i: InstV| !#[trigger] p(i) ==> i is Write && !ls.contains(i->Write_1),
        forall|k: int|
            0 <= k < insts.len() && (#[trigger] insts[k]) is Load ==> ls.contains(
                insts[k]->Load_0,
            ),
        ram_a.len() == ram_b.len(),
        forall|a: MemAddr| ls.contains(a) && a < ram_a.len() ==> ram_a[a as int] == #[trigger] ram_b[a as int],
    ensures
        run_model(insts.filter(p), regs, ram_b, vars) == Ok::<i32, RuntimeError>(v),
    decreases insts.len(),
{
    assert(insts.len() > 0);
    let h = insts[0];
    let rest = insts.drop_first();
    assert(insts =~= seq![h] + rest);
    rest.lemma_filter_prepend(h, p);
    assert(insts.filter(p) == (if p(h) {
        seq![h]
    } else {
        Seq::<InstV>::empty()
    }) + rest.filter(p));
    assert(forall|k: int|
        0 <= k < rest.len() && (#[trigger] rest[k]) is Load ==> ls.contains(rest[k]->Load_0)) by {
        assert(forall|k: int| 0 <= k < rest.len() ==> rest[k] == #[trigger] insts[k + 1]);
    }
    let step_a = step_model(h, regs, ram_a, vars);
    match step_a {
        Err(_) => {
            assert(false);
        },
        Ok(StepV::Finished(fv)) => {
            assert(fv == v);
            assert(p(h));
            assert(step_model(h, regs, ram_b, vars) == Ok::<StepV, RuntimeError>(
                StepV::Finished(v),
            ));
            assert(seq![h] + rest.filter(p) =~= insts.filter(p));
            assert((insts.filter(p))[0] == h);
            assert(run_model(insts.filter(p), regs, ram_b, vars) == Ok::<i32, RuntimeError>(v));
        },
        Ok(StepV::Continue(regs2, ram_a2)) => {
            assert(run_model(rest, regs2, ram_a2, vars) == Ok::<i32, RuntimeError>(v));
            if !p(h) {
                let addr = h->Write_1;
                assert(h is Write);
                assert(!ls.contains(addr));
                assert(regs2 == regs);
                assert(ram_a2 == ram_a.update(addr as int, regs[h->Write_0 as int]->Some_0));
                assert(ram_a2.len() == ram_b.len());
                assert(forall|a: MemAddr|
                    ls.contains(a) && a < ram_a2.len() ==> ram_a2[a as int] == #[trigger] ram_b[a as int]);
                lemma_run_filtered(rest, p, ls, regs, ram_a2, ram_b, vars, v);
                assert(Seq::<InstV>::empty() + rest.filter(p) =~= rest.filter(p));
            } else {
                let filtered = insts.filter(p);
                assert(filtered =~= seq![h] + rest.filter(p));
                assert(filtered.len() > 0 && filtered[0] == h);
                assert(filtered.drop_first() =~= rest.filter(p));
                match h {
                    InstV::Write(r, addr) => {
                        assert(addr < ram_a.len());
                        assert(regs[r as int] is Some);
                        let x = regs[r as int]->Some_0;
                        assert(regs2 == regs && ram_a2 == ram_a.update(addr as int, x));
                        let ram_b2 = ram_b.update(addr as int, x);
                        assert(step_model(h, regs, ram_b, vars) == Ok::<StepV, RuntimeError>(
                            StepV::Continue(regs, ram_b2),
                        ));
                        assert(forall|a: MemAddr|
                            ls.contains(a) && a < ram_a2.len() ==> ram_a2[a as int]
                                == #[trigger] ram_b2[a as int]);
                        lemma_run_filtered(rest, p, ls, regs, ram_a2, ram_b2, vars, v);
                    },
                    InstV::Load(addr, r) => {
                        assert(addr < ram_a.len());
                        assert(ls.contains(addr));
                        assert(ram_a[addr as int] == ram_b[addr as int]);
                        assert(regs2 == regs.update(r as int, Some(ram_a[addr as int])));
                        assert(ram_a2 == ram_a);
                        assert(step_model(h, regs, ram_b, vars) == Ok::<StepV, RuntimeError>(
                            StepV::Continue(regs2, ram_b),
                        ));
                        lemma_run_filtered(rest, p, ls, regs2, ram_a, ram_b, vars, v);
                    },
                    _ => {
                        assert(ram_a2 == ram_a);
                        assert(step_model(h, regs, ram_b, vars) == Ok::<StepV, RuntimeError>(
                            StepV::Continue(regs2, ram_b),
                        ));
                        lemma_run_filtered(rest, p, ls, regs2, ram_a, ram_b, vars, v);
                    },
                }
            }
        },
    }
}

/// Dead-store elimination is behavior-preserving: when a stream runs to a
/// final value, the same stream with every never-loaded `Write` removed
/// runs to the same value, from the same machine state and inputs.
pub proof fn lemma_cache_opt_preserves_result(
    insts: Seq<InstV>,
    regs: Seq<Option<i32>>,
    ram: Seq<i32>,
    vars: Option<Seq<(Seq<char>, Seq<char>)>>,
    v: i32,
)
    requires
        run_model(insts, regs, ram, vars) == Ok::<i32, RuntimeError>(v),
    ensures
        run_model(cache_opt_model(insts), regs, ram, vars) == Ok::<i32, RuntimeError>(v),
{
    let ls = load_addresses(insts);
    let p = |inst: InstV| keeps_inst(insts, inst);
    assert(forall|i: InstV| !#[trigger] p(i) ==> i is Write && !ls.contains(i->Write_1));
    assert(forall|k: int|
        0 <= k < insts.len() && (#[trigger] insts[k]) is Load ==> ls.contains(
            insts[k]->Load_0,
        ));
    lemma_run_filtered(insts, p, ls, regs, ram, ram, vars, v);
}


proof fn lemma_pow2_literal(p: i32)
    requires
        is_pow2_literal(p),
    ensures
        p == pow2(log2(p as nat)) as i32,
        pow2(log2(p as nat)) == p,
    decreases p,
{
    if p == 1 {
        vstd::arithmetic::power2::lemma2_to64();
    } else {
        let q: i32 = (p / 2) as i32;
        assert(q > 0 && q & ((q - 1) as i32) == 0 && q < p && 2 * q == p) by (bit_vector)
            requires
                p > 1 && p & ((p - 1) as i32) == 0 && q == p / 2,
        ;
        lemma_pow2_literal(q);
        assert(log2(p as nat) == 1 + log2(q as nat));
        assert(pow2(log2(p as nat)) == 2 * pow2(log2(q as nat))) by {
            vstd::arithmetic::power2::lemma_pow2_unfold(log2(p as nat));
        }
        assert(2 * q == p);
    }
}

proof fn lemma_u32_shl_mod(x: u32, k: u32)
    requires
        k < 32,
    ensures
        (x << k) as int == (x as int * pow2(k as nat)) % 0x1_0000_0000,
{
    vstd::bits::lemma_u64_pow2_no_overflow(k as nat);
    vstd::bits::lemma_u64_shl_is_mul(1u64, k as u64);
    assert(1u64 << (k as u64) == pow2(k as nat));
    assert(((x << k) as u64) == ((x as u64) * (1u64 << (k as u64))) % 0x1_0000_0000) by (bit_vector)
        requires
            k < 32,
    ;
}

proof fn lemma_i32_shl_nonneg(n: i32, k: i32, p: i32)
    requires
        n >= 0,
        0 <= k <= 30,
        p == pow2(k as nat) as i32,
        pow2(k as nat) == p,
    ensures
        shl_sat(n, k) == mul_wrap(n, p),
{
    let nu = n as u32;
    let ku = k as u32;
    assert(n << ku == ((n as u32) << ku) as i32) by (bit_vector)
        requires
            n >= 0 && ku < 32,
    ;
    let v: u32 = nu << ku;
    lemma_u32_shl_mod(nu, ku);
    assert(v as int == (n * p) % 0x1_0000_0000) by {
        assert(nu as int == n as int);
        assert(nu as int * pow2(k as nat) == n as int * p as int);
    }
    assert((n * p) % 0x1_0000_0000 >= 0) by (nonlinear_arith);
    if v > 0x7fff_ffff {
        assert((v as i32) as i64 == (v as i64) - 0x1_0000_0000) by (bit_vector)
            requires
                v > 0x7fff_ffff,
        ;
        assert(mul_wrap(n, p) as int == (n * p) % 0x1_0000_0000 - 0x1_0000_0000);
        assert((v as i32) as int == v as int - 0x1_0000_0000);
    } else {
        assert((v as i32) as i64 == v as i64) by (bit_vector)
            requires
                v <= 0x7fff_ffff,
        ;
        assert(mul_wrap(n, p) as int == (n * p) % 0x1_0000_0000);
        assert((v as i32) as int == v as int);
    }
    assert(shl_sat(n, k) == n << ku) by {
        assert((k as u32) < 32);
    }
}

proof fn lemma_i32_shr_nonneg(n: i32, k: i32, p: i32)
    requires
        n >= 0,
        0 <= k <= 30,
        p == pow2(k as nat) as i32,
        pow2(k as nat) == p,
    ensures
        shr_sat(n, k) == div_wrap(n, p),
{
    let nu = n as u32;
    let ku = k as u32;
    vstd::arithmetic::power2::lemma_pow2_pos(k as nat);
    vstd::bits::lemma_u32_shr_is_div(nu, ku);
    assert(nu >> ku == nu as nat / pow2(k as nat));
    assert(n >> ku == ((n as u32) >> ku) as i32) by (bit_vector)
        requires
            n >= 0 && ku < 32,
    ;
    assert(nu >> ku <= nu) by {
        assert(nu as nat / pow2(k as nat) <= nu as nat) by (nonlinear_arith)
            requires
                pow2(k as nat) >= 1,
        ;
    }
    assert(shr_sat(n, k) == n >> ku) by {
        assert((k as u32) < 32);
    }
    assert(div_wrap(n, p) == n as int / p as int) by {
        if n == 0 {
            assert(0int / (p as int) == 0) by (nonlinear_arith)
                requires
                    p as int > 0,
            ;
        }
        assert(n as int / p as int <= n) by (nonlinear_arith)
            requires
                n >= 0 && p as int >= 1,
        ;
        assert(n as int / p as int >= 0) by (nonlinear_arith)
            requires
                n >= 0 && p as int >= 1,
        ;
    }
}

/// Shift equivalence for multiplication: for a non-negative value and a
/// power-of-two literal, multiplying by the literal and shifting left by
/// its base-two logarithm are the same machine operation; on overflow both
/// wrap the same way.
pub proof fn lemma_shift_equivalence_mul(n: i32, p: i32)
    requires
        n >= 0,
        is_pow2_literal(p),
    ensures
        apply_op(Operator::Mul, n, p) == apply_op(Operator::Shl, n, shift_amount(p)),
{
    lemma_pow2_literal(p);
    lemma_log2_bound(p as nat);
    lemma_i32_shl_nonneg(n, shift_amount(p), p);
}

/// Shift equivalence for division: for a non-negative value and any
/// power-of-two literal, dividing by the literal and shifting right by its
/// base-two logarithm are the same machine operation.
pub proof fn lemma_shift_equivalence_div(n: i32, p: i32)
    requires
        n >= 0,
        is_pow2_literal(p),
    ensures
        apply_op(Operator::Div, n, p) == apply_op(Operator::Shr, n, shift_amount(p)),
{
    lemma_pow2_literal(p);
    lemma_log2_bound(p as nat);
    lemma_i32_shr_nonneg(n, shift_amount(p), p);
}


} // verus!
