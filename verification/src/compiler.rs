//! The code generator: a post-order walk over the expression tree that
//! allocates registers round-robin, spills to the backing store when the
//! ring wraps, and reuses the location of a structurally repeated subtree
//! instead of recomputing it. The whole generation is pinned down by the
//! spec function `ast_to_ir_model`.

use vstd::prelude::*;
use crate::cache_optimization::{cache_opt_model, run_cache_optimization};
use crate::common_factor_elimination::{CommonFactorElimination, cfe_model};
use crate::constant_folding::{ConstantFold, fold_model};
use crate::options::InterpreterOptions;
use crate::parser::{run_parser, run_parser_model};
use crate::shift_replacement::{ShiftReplacement, shift_model};
use crate::types::{Expr, ExprV, Inst, InstV, IrError, LpErr, MemAddr, Operator, Reg, insts_model};
use crate::types::expressions_equal;

verus! {

/// Describes where a computed value currently lives: a register or a
/// backing-store cell.
#[derive(Debug, Clone, Copy, PartialEq, Eq, Structural)]
pub enum Location {
    Ram(MemAddr),
    Reg(u8),
}

/// The register letter used when code is shown to a reader: index zero is
/// `a`, index one is `b`, and so on.
pub fn u8tochar(reg: u8) -> (r: char)
    requires
        reg < 26,
    ensures
        r as u32 == 97 + reg,
{
    (97 + reg) as char
}

/// The bookkeeping state of one code-generation run, as mathematics: the
/// two ring cursors, the code emitted so far, the free variables seen, the
/// location of every computed subtree, and the owner of every register.
#[verifier::ext_equal]
pub struct GenState {
    pub next_reg: Reg,
    pub ram_idx: usize,
    pub code: Seq<InstV>,
    pub variables: Seq<Seq<char>>,
    pub mmap: Seq<(ExprV, Location)>,
    pub rmap: Seq<Option<ExprV>>,
}

/// The location recorded for a subtree: first matching entry.
pub open spec fn assoc_get(m: Seq<(ExprV, Location)>, k: ExprV) -> Option<Location>
    decreases m.len(),
{
    if m.len() == 0 {
        None
    } else if m[0].0 == k {
        Some(m[0].1)
    } else {
        assoc_get(m.drop_first(), k)
    }
}

/// Replaces the first entry for a key, or appends one.
pub open spec fn assoc_set(m: Seq<(ExprV, Location)>, k: ExprV, v: Location) -> Seq<
    (ExprV, Location),
>
    decreases m.len(),
{
    if m.len() == 0 {
        seq![(k, v)]
    } else if m[0].0 == k {
        seq![(k, v)] + m.drop_first()
    } else {
        seq![m[0]] + assoc_set(m.drop_first(), k, v)
    }
}

/// What spilling a subtree's register to the backing store does: emit a
/// `Write` of its register to the next free cell, record the new location,
/// and advance the cell cursor around its ring. A subtree that is not in a
/// register is left alone.
pub open spec fn create_write_model(exp: ExprV, st: GenState, nc: usize) -> GenState
    recommends
        nc > 0,
{
    match assoc_get(st.mmap, exp) {
        Some(Location::Reg(r)) => GenState {
            code: st.code.push(InstV::Write(r, st.ram_idx)),
            mmap: assoc_set(st.mmap, exp, Location::Ram(st.ram_idx)),
            ram_idx: ((st.ram_idx + 1) % nc as int) as usize,
            ..st
        },
        _ => st,
    }
}

/// What reloading a spilled subtree does: emit a `Load` from its cell into
/// the register at the cursor, record the new location, and advance the
/// register cursor around its ring. A subtree that is not in a cell is left
/// alone.
pub open spec fn create_load_model(exp: ExprV, st: GenState, nr: u8) -> GenState
    recommends
        nr > 0,
{
    match assoc_get(st.mmap, exp) {
        Some(Location::Ram(addr)) => GenState {
            code: st.code.push(InstV::Load(addr, st.next_reg)),
            mmap: assoc_set(st.mmap, exp, Location::Reg(st.next_reg)),
            next_reg: ((st.next_reg + 1) % nr as int) as u8,
            ..st
        },
        _ => st,
    }
}

/// What making an operand available again does. If the register believed to
/// hold the operand still holds it, nothing changes. Otherwise the register
/// at the cursor is claimed for it — spilling the current owner first — and
/// the operand is reloaded from the backing store; the returned register is
/// the claimed one.
pub open spec fn fetch_model(cur_reg: Reg, e: ExprV, st: GenState, nr: u8, nc: usize) -> (
    GenState,
    Reg,
)
    recommends
        nr > 0,
        nc > 0,
        cur_reg < st.rmap.len(),
        st.next_reg < st.rmap.len(),
{
    if st.rmap[cur_reg as int] == Some(e) {
        (st, cur_reg)
    } else {
        let target = st.next_reg;
        let st1 = match st.rmap[target as int] {
            Some(old_expr) => create_write_model(old_expr, st, nc),
            None => st,
        };
        let st2 = GenState { rmap: st1.rmap.update(target as int, Some(e)), ..st1 };
        let st3 = create_load_model(e, st2, nr);
        (st3, target)
    }
}

/// What generating code for a leaf does: claim the register at the cursor
/// (spilling its current owner), emit the given instruction into it, record
/// the leaf's location unless one is already recorded, and advance the
/// register cursor.
pub open spec fn leaf_model(ast: ExprV, inst: InstV, st: GenState, nr: u8, nc: usize) -> (
    GenState,
    Reg,
) {
    let reg = st.next_reg;
    let st1 = match st.rmap[reg as int] {
        Some(old_expr) => create_write_model(old_expr, st, nc),
        None => st,
    };
    let st2 = GenState {
        rmap: st1.rmap.update(reg as int, Some(ast)),
        code: st1.code.push(inst),
        ..st1
    };
    let st3 = if assoc_get(st2.mmap, ast) is Some {
        st2
    } else {
        GenState { mmap: st2.mmap.push((ast, Location::Reg(reg))), ..st2 }
    };
    let st4 = GenState { next_reg: ((reg + 1) % nr as int) as u8, ..st3 };
    (st4, reg)
}

/// A name joins the set of free variables once, on first sight.
pub open spec fn vars_insert(vs: Seq<Seq<char>>, v: Seq<char>) -> Seq<Seq<char>> {
    if vs.contains(v) {
        vs
    } else {
        vs.push(v)
    }
}

/// The instruction that a binary node compiles to.
pub open spec fn binop_inst(op: Operator, a: Reg, b: Reg) -> InstV {
    match op {
        Operator::Add => InstV::Add(a, b),
        Operator::Sub => InstV::Sub(a, b),
        Operator::Mul => InstV::Mul(a, b),
        Operator::Div => InstV::Div(a, b),
        Operator::Shl => InstV::Shl(a, b),
        Operator::Shr => InstV::Shr(a, b),
    }
}

/// What finishing a binary or unary node does once both operand registers
/// are resolved: emit the instruction into the right operand's register,
/// make that register owned by the whole node, and record the node's
/// location there unconditionally — a register is worth more than an old
/// cell.
pub open spec fn combine_model(ast: ExprV, op: Operator, left_reg: Reg, right_reg: Reg, st: GenState) -> (
    GenState,
    Reg,
) {
    let st1 = GenState { code: st.code.push(binop_inst(op, left_reg, right_reg)), ..st };
    let st2 = if st1.rmap[right_reg as int] is Some {
        GenState { rmap: st1.rmap.update(right_reg as int, Some(ast)), ..st1 }
    } else {
        st1
    };
    let st3 = GenState { mmap: assoc_set(st2.mmap, ast, Location::Reg(right_reg)), ..st2 };
    (st3, right_reg)
}

/// The size measure that code generation recurses on: a negation also
/// compiles its literal zero, so it must outweigh one.
pub open spec fn esize(e: ExprV) -> nat
    decreases e,
{
    match e {
        ExprV::Num(_) => 1,
        ExprV::Var(_) => 1,
        ExprV::UnaryOp(_, e1) => 2 + esize(*e1),
        ExprV::BinaryOp(l, _, r) => 1 + esize(*l) + esize(*r),
    }
}

/// The whole post-order code generation for one subtree, exactly as
/// `Compiler::ast_to_ir` performs it: the new state and the register that
/// holds the subtree's value, or the defensive error for a malformed unary
/// operator.
pub open spec fn ast_to_ir_model(ast: ExprV, st: GenState, nr: u8, nc: usize) -> Result<
    (GenState, Reg),
    IrError,
>
    decreases esize(ast),
{
    match ast {
        ExprV::Num(n) => Ok(leaf_model(ast, InstV::Store(n, st.next_reg), st, nr, nc)),
        ExprV::Var(v) => {
            let (st1, reg) = leaf_model(ast, InstV::Transfer(v, st.next_reg), st, nr, nc);
            Ok((GenState { variables: vars_insert(st1.variables, v), ..st1 }, reg))
        },
        ExprV::UnaryOp(op, e) => {
            if op == Operator::Sub {
                match ast_to_ir_model(ExprV::Num(0), st, nr, nc) {
                    Err(err) => Err(err),
                    Ok((st1, left_reg)) => match ast_to_ir_model(*e, st1, nr, nc) {
                        Err(err) => Err(err),
                        Ok((st2, right_reg)) => {
                            let (st3, left_reg2) = fetch_model(
                                left_reg,
                                ExprV::Num(0),
                                st2,
                                nr,
                                nc,
                            );
                            let (st4, right_reg2) = fetch_model(right_reg, *e, st3, nr, nc);
                            Ok(combine_model(ast, Operator::Sub, left_reg2, right_reg2, st4))
                        },
                    },
                }
            } else {
                Err(IrError::InvalidUnaryOperator(op))
            }
        },
        ExprV::BinaryOp(l, op, r) => match ast_to_ir_model(*l, st, nr, nc) {
            Err(err) => Err(err),
            Ok((st1, left_reg)) => match ast_to_ir_model(*r, st1, nr, nc) {
                Err(err) => Err(err),
                Ok((st2, right_reg)) => {
                    let (st3, left_reg2) = fetch_model(left_reg, *l, st2, nr, nc);
                    let (st4, right_reg2) = fetch_model(right_reg, *r, st3, nr, nc);
                    Ok(combine_model(ast, op, left_reg2, right_reg2, st4))
                },
            },
        },
    }
}

/// The state a code-generation run starts from: both cursors at zero,
/// nothing emitted, nothing recorded, every register unowned.
pub open spec fn init_gen_state(nr: u8) -> GenState {
    GenState {
        next_reg: 0,
        ram_idx: 0,
        code: Seq::empty(),
        variables: Seq::empty(),
        mmap: Seq::empty(),
        rmap: Seq::new(nr as nat, |i: int| None),
    }
}

/// What compiling a whole tree produces: the generated code with the final
/// `Result` appended, and the free variables in order of first sight.
pub open spec fn generate_model(ast: ExprV, nr: u8, nc: usize) -> Result<
    (Seq<InstV>, Seq<Seq<char>>),
    IrError,
> {
    match ast_to_ir_model(ast, init_gen_state(nr), nr, nc) {
        Err(err) => Err(err),
        Ok((st, reg)) => Ok((st.code.push(InstV::Result(reg)), st.variables)),
    }
}


/// The tree that the chosen passes rewrite a parsed tree into: constant
/// folding first, then common-factor elimination, then shift replacement.
pub open spec fn pipeline_model(e: ExprV, options: CompileOptions) -> ExprV {
    let e1 = if options.do_constant_folding {
        fold_model(e)
    } else {
        e
    };
    let e2 = if options.do_common_factor_elimination {
        cfe_model(e1)
    } else {
        e1
    };
    if options.do_shift_replacement {
        shift_model(e2)
    } else {
        e2
    }
}

/// What compiling a parsed tree produces: the generated stream — dead
/// stores removed when the cache optimization is on — and the free
/// variables of the tree in order of first sight.
pub open spec fn compile_model(e: ExprV, options: CompileOptions, nr: u8, nc: usize) -> Result<
    (Seq<InstV>, Seq<Seq<char>>),
    IrError,
> {
    match generate_model(pipeline_model(e, options), nr, nc) {
        Err(err) => Err(err),
        Ok((code, vars)) => Ok(
            (
                if options.run_cache_optimization {
                    cache_opt_model(code)
                } else {
                    code
                },
                vars,
            ),
        ),
    }
}

/// The view of an execution-level location map.
pub open spec fn mmap_view(m: Seq<(Expr, Location)>) -> Seq<(ExprV, Location)> {
    m.map(|i: int, p: (Expr, Location)| (p.0.model(), p.1))
}

/// The view of an execution-level register-owner table.
pub open spec fn rmap_view(m: Seq<Option<Expr>>) -> Seq<Option<ExprV>> {
    m.map(
        |i: int, o: Option<Expr>|
            match o {
                None => None,
                Some(e) => Some(e.model()),
            },
    )
}

/// The view of an execution-level variable list.
pub open spec fn vars_view(vs: Seq<String>) -> Seq<Seq<char>> {
    vs.map(|i: int, s: String| s@)
}

proof fn lemma_assoc_get_at(m: Seq<(ExprV, Location)>, k: ExprV, i: int)
    requires
        0 <= i < m.len(),
        forall|j: int| 0 <= j < i ==> (#[trigger] m[j]).0 != k,
        m[i].0 == k,
    ensures
        assoc_get(m, k) == Some(m[i].1),
    decreases i,
{
    if i > 0 {
        lemma_assoc_get_at(m.drop_first(), k, i - 1);
    }
}

proof fn lemma_assoc_get_none(m: Seq<(ExprV, Location)>, k: ExprV)
    requires
        forall|j: int| 0 <= j < m.len() ==> (#[trigger] m[j]).0 != k,
    ensures
        assoc_get(m, k) is None,
    decreases m.len(),
{
    if m.len() > 0 {
        lemma_assoc_get_none(m.drop_first(), k);
    }
}

proof fn lemma_assoc_set_at(m: Seq<(ExprV, Location)>, k: ExprV, v: Location, i: int)
    requires
        0 <= i < m.len(),
        forall|j: int| 0 <= j < i ==> (#[trigger] m[j]).0 != k,
        m[i].0 == k,
    ensures
        assoc_set(m, k, v) =~= m.update(i, (k, v)),
    decreases i,
{
    if i > 0 {
        lemma_assoc_set_at(m.drop_first(), k, v, i - 1);
        assert(assoc_set(m, k, v) =~= seq![m[0]] + m.drop_first().update(i - 1, (k, v)));
    }
}

proof fn lemma_assoc_set_absent(m: Seq<(ExprV, Location)>, k: ExprV, v: Location)
    requires
        forall|j: int| 0 <= j < m.len() ==> (#[trigger] m[j]).0 != k,
    ensures
        assoc_set(m, k, v) =~= m.push((k, v)),
    decreases m.len(),
{
    if m.len() > 0 {
        lemma_assoc_set_absent(m.drop_first(), k, v);
        assert(assoc_set(m, k, v) =~= seq![m[0]] + m.drop_first().push((k, v)));
    }
}

/// The recorded location of a subtree, by structural equality.
fn mmap_get(m: &Vec<(Expr, Location)>, k: &Expr) -> (r: Option<Location>)
    ensures
        r == assoc_get(mmap_view(m@), k.model()),
{
    let ghost vm = mmap_view(m@);
    let mut i: usize = 0;
    while i < m.len()
        invariant
            vm == mmap_view(m@),
            i <= m@.len(),
            forall|j: int| 0 <= j < i ==> (#[trigger] vm[j]).0 != k.model(),
        decreases m@.len() - i,
    {
        proof {
            assert(vm[i as int] == (m@[i as int].0.model(), m@[i as int].1));
        }
        if expressions_equal(&m[i].0, k) {
            proof {
                lemma_assoc_get_at(vm, k.model(), i as int);
            }
            return Some(m[i].1);
        }
        i = i + 1;
    }
    proof {
        lemma_assoc_get_none(vm, k.model());
    }
    None
}

/// Records the location of a subtree, replacing an existing entry.
fn mmap_set(m: &mut Vec<(Expr, Location)>, k: &Expr, v: Location)
    ensures
        mmap_view(final(m)@) == assoc_set(mmap_view(old(m)@), k.model(), v),
{
    let ghost vm = mmap_view(old(m)@);
    let mut i: usize = 0;
    while i < m.len()
        invariant
            m@ == old(m)@,
            vm == mmap_view(m@),
            i <= m@.len(),
            forall|j: int| 0 <= j < i ==> (#[trigger] vm[j]).0 != k.model(),
        decreases m@.len() - i,
    {
        proof {
            assert(vm[i as int] == (m@[i as int].0.model(), m@[i as int].1));
        }
        if expressions_equal(&m[i].0, k) {
            proof {
                lemma_assoc_set_at(vm, k.model(), v, i as int);
            }
            m.set(i, (k.duplicate(), v));
            proof {
                assert(mmap_view(m@) =~= vm.update(i as int, (k.model(), v)));
            }
            return ;
        }
        i = i + 1;
    }
    proof {
        lemma_assoc_set_absent(vm, k.model(), v);
    }
    m.push((k.duplicate(), v));
    proof {
        assert(mmap_view(m@) =~= vm.push((k.model(), v)));
    }
}

/// Whether a variable name was already seen.
fn vars_contains(vs: &Vec<String>, v: &String) -> (r: bool)
    ensures
        r == vars_view(vs@).contains(v@),
{
    let ghost vm = vars_view(vs@);
    let mut i: usize = 0;
    while i < vs.len()
        invariant
            vm == vars_view(vs@),
            i <= vs@.len(),
            forall|j: int| 0 <= j < i ==> #[trigger] vm[j] != v@,
        decreases vs@.len() - i,
    {
        proof {
            assert(vm[i as int] == vs@[i as int]@);
        }
        if vs[i].eq(v) {
            proof {
                assert(vm.contains(v@));
            }
            return true;
        }
        i = i + 1;
    }
    proof {
        assert(forall|j: int| 0 <= j < vm.len() ==> #[trigger] vm[j] != v@);
        assert(!vm.contains(v@));
    }
    false
}

/// The bookkeeping of one code-generation run.
pub struct GenSt {
    pub next_reg: Reg,
    pub ram_idx: usize,
    pub code: Vec<Inst>,
    pub variables: Vec<String>,
    pub mmap: Vec<(Expr, Location)>,
    pub rmap: Vec<Option<Expr>>,
}

impl GenSt {
    /// The mathematical value of this state.
    pub open spec fn model(&self) -> GenState {
        GenState {
            next_reg: self.next_reg,
            ram_idx: self.ram_idx,
            code: insts_model(self.code@),
            variables: vars_view(self.variables@),
            mmap: mmap_view(self.mmap@),
            rmap: rmap_view(self.rmap@),
        }
    }
}

/// The ring cursors stay inside their rings and the owner table has one
/// slot per register.
pub open spec fn gen_wf(st: GenState, nr: u8, nc: usize) -> bool {
    st.rmap.len() == nr && st.next_reg < nr && st.ram_idx < nc
}

/// Which optimization passes a compilation applies.
#[derive(Debug, Clone, Copy)]
pub struct CompileOptions {
    pub do_constant_folding: bool,
    pub run_cache_optimization: bool,
    pub do_common_factor_elimination: bool,
    pub do_shift_replacement: bool,
}

impl Default for CompileOptions {
    /// By default no pass runs.
    fn default() -> (r: Self)
        ensures
            !r.do_constant_folding,
            !r.run_cache_optimization,
            !r.do_common_factor_elimination,
            !r.do_shift_replacement,
    {
        CompileOptions {
            do_constant_folding: false,
            run_cache_optimization: false,
            do_common_factor_elimination: false,
            do_shift_replacement: false,
        }
    }
}

impl CompileOptions {
    /// Whether any pass is enabled at all.
    pub fn any(&self) -> (r: bool)
        ensures
            r == (self.do_constant_folding || self.run_cache_optimization
                || self.do_common_factor_elimination || self.do_shift_replacement),
    {
        self.do_constant_folding || self.run_cache_optimization
            || self.do_common_factor_elimination || self.do_shift_replacement
    }
}

/// The compiler: the chosen passes and the machine the code is for.
pub struct Compiler {
    pub options: CompileOptions,
    pub hw: InterpreterOptions,
}

impl Compiler {
    /// A compiler with the given passes and the default machine.
    pub fn with(options: CompileOptions) -> (r: Self)
        ensures
            r.options == options,
            r.hw.num_registers == 6,
            r.hw.num_cachelines == 16,
    {
        Self { options, hw: Default::default() }
    }

    /// Retargets the compiler to the given machine.
    pub fn with_interpreter(self, hw: InterpreterOptions) -> (r: Self)
        ensures
            r.options == self.options,
            r.hw == hw,
    {
        Self { hw, ..self }
    }

    /// Spills a subtree's register to the backing store.
    fn create_write(&self, exp: &Expr, st: &mut GenSt)
        requires
            self.hw.num_cachelines > 0,
            old(st).ram_idx < self.hw.num_cachelines,
        ensures
            final(st).model() == create_write_model(
                exp.model(),
                old(st).model(),
                self.hw.num_cachelines,
            ),
            final(st).ram_idx < self.hw.num_cachelines,
            final(st).next_reg == old(st).next_reg,
            final(st).rmap@ == old(st).rmap@,
    {
        let ghost st0 = old(st).model();
        match mmap_get(&st.mmap, exp) {
            Some(Location::Reg(r)) => {
                let ghost code0 = insts_model(st.code@);
                st.code.push(Inst::Write(r, st.ram_idx));
                proof {
                    assert(insts_model(st.code@) =~= code0.push(InstV::Write(r, st0.ram_idx)));
                }
                mmap_set(&mut st.mmap, exp, Location::Ram(st.ram_idx));
                st.ram_idx = (st.ram_idx + 1) % self.hw.num_cachelines;
                proof {
                    assert(st.model() =~= create_write_model(
                        exp.model(),
                        st0,
                        self.hw.num_cachelines,
                    ));
                }
            },
            _ => {
                proof {
                    assert(st.model() =~= create_write_model(
                        exp.model(),
                        st0,
                        self.hw.num_cachelines,
                    ));
                }
            },
        }
    }

    /// Reloads a spilled subtree into the register at the cursor.
    fn create_load(&self, exp: &Expr, st: &mut GenSt)
        requires
            self.hw.num_registers > 0,
            old(st).next_reg < self.hw.num_registers,
        ensures
            final(st).model() == create_load_model(
                exp.model(),
                old(st).model(),
                self.hw.num_registers,
            ),
            final(st).next_reg < self.hw.num_registers,
            final(st).ram_idx == old(st).ram_idx,
            final(st).rmap@ == old(st).rmap@,
    {
        let ghost st0 = old(st).model();
        match mmap_get(&st.mmap, exp) {
            Some(Location::Ram(addr)) => {
                let ghost code0 = insts_model(st.code@);
                st.code.push(Inst::Load(addr, st.next_reg));
                proof {
                    assert(insts_model(st.code@) =~= code0.push(InstV::Load(addr, st0.next_reg)));
                }
                mmap_set(&mut st.mmap, exp, Location::Reg(st.next_reg));
                st.next_reg = (st.next_reg + 1) % self.hw.num_registers;
                proof {
                    assert(st.model() =~= create_load_model(
                        exp.model(),
                        st0,
                        self.hw.num_registers,
                    ));
                }
            },
            _ => {
                proof {
                    assert(st.model() =~= create_load_model(
                        exp.model(),
                        st0,
                        self.hw.num_registers,
                    ));
                }
            },
        }
    }

    /// Makes an operand available again after it may have been evicted.
    fn fetch_if_necessary(&self, cur_reg: &mut Reg, e: &Expr, st: &mut GenSt)
        requires
            self.hw.num_registers > 0,
            self.hw.num_cachelines > 0,
            gen_wf(old(st).model(), self.hw.num_registers, self.hw.num_cachelines),
            *old(cur_reg) < self.hw.num_registers,
        ensures
            (final(st).model(), *final(cur_reg)) == fetch_model(
                *old(cur_reg),
                e.model(),
                old(st).model(),
                self.hw.num_registers,
                self.hw.num_cachelines,
            ),
            gen_wf(final(st).model(), self.hw.num_registers, self.hw.num_cachelines),
            *final(cur_reg) < self.hw.num_registers,
    {
        let ghost st0 = old(st).model();
        let same = match &st.rmap[*cur_reg as usize] {
            Some(owner) => expressions_equal(owner, e),
            None => false,
        };
        proof {
            assert(st0.rmap[*cur_reg as int] == rmap_view(st.rmap@)[*cur_reg as int]);
        }
        if !same {
            let target = st.next_reg;
            let owner_opt: Option<Expr> = match &st.rmap[target as usize] {
                Some(owner) => Some(owner.duplicate()),
                None => None,
            };
            proof {
                assert(st0.rmap[target as int] == rmap_view(st.rmap@)[target as int]);
            }
            if let Some(old_expr) = owner_opt {
                self.create_write(&old_expr, st);
            }
            let ghost st1 = st.model();
            st.rmap.set(target as usize, Some(e.duplicate()));
            proof {
                assert(st.model() =~= GenState {
                    rmap: st1.rmap.update(target as int, Some(e.model())),
                    ..st1
                });
            }
            *cur_reg = target;
            self.create_load(e, st);
        }
    }

    /// Generates code for one leaf: claim the register at the cursor,
    /// spilling its owner, and emit the given instruction into it.
    fn emit_leaf(&self, ast: &Expr, inst: Inst, st: &mut GenSt) -> (reg: Reg)
        requires
            self.hw.num_registers > 0,
            self.hw.num_cachelines > 0,
            gen_wf(old(st).model(), self.hw.num_registers, self.hw.num_cachelines),
            inst.model() == InstV::Store(inst->Store_0, old(st).next_reg) || inst.model()
                == InstV::Transfer(inst->Transfer_0@, old(st).next_reg),
        ensures
            (final(st).model(), reg) == leaf_model(
                ast.model(),
                inst.model(),
                old(st).model(),
                self.hw.num_registers,
                self.hw.num_cachelines,
            ),
            gen_wf(final(st).model(), self.hw.num_registers, self.hw.num_cachelines),
            reg < self.hw.num_registers,
    {
        let ghost st0 = old(st).model();
        let reg = st.next_reg;
        let owner_opt: Option<Expr> = match &st.rmap[reg as usize] {
            Some(owner) => Some(owner.duplicate()),
            None => None,
        };
        proof {
            assert(st0.rmap[reg as int] == rmap_view(st.rmap@)[reg as int]);
        }
        if let Some(old_expr) = owner_opt {
            self.create_write(&old_expr, st);
        }
        let ghost st1 = st.model();
        st.rmap.set(reg as usize, Some(ast.duplicate()));
        let ghost code1 = insts_model(st.code@);
        st.code.push(inst);
        let ghost st2 = st.model();
        proof {
            assert(st2 =~= GenState {
                rmap: st1.rmap.update(reg as int, Some(ast.model())),
                code: st1.code.push(st2.code.last()),
                ..st1
            });
        }
        let recorded = mmap_get(&st.mmap, ast);
        if recorded.is_none() {
            st.mmap.push((ast.duplicate(), Location::Reg(reg)));
            proof {
                assert(mmap_view(st.mmap@) =~= st2.mmap.push((ast.model(), Location::Reg(reg))));
            }
        }
        let ghost st3 = st.model();
        st.next_reg = (reg + 1) % self.hw.num_registers;
        proof {
            assert(st.model() =~= GenState {
                next_reg: ((reg + 1) % self.hw.num_registers as int) as u8,
                ..st3
            });
        }
        reg
    }

    /// Generates code for one subtree and reports the register that holds
    /// its value.
    fn ast_to_ir(&self, ast: &Expr, st: &mut GenSt) -> (r: Result<Reg, LpErr>)
        requires
            self.hw.num_registers > 0,
            self.hw.num_cachelines > 0,
            gen_wf(old(st).model(), self.hw.num_registers, self.hw.num_cachelines),
        ensures
            gen_wf(final(st).model(), self.hw.num_registers, self.hw.num_cachelines),
            ({
                let spec_r = ast_to_ir_model(
                    ast.model(),
                    old(st).model(),
                    self.hw.num_registers,
                    self.hw.num_cachelines,
                );
                match r {
                    Ok(reg) => spec_r == Ok::<(GenState, Reg), IrError>((final(st).model(), reg))
                        && reg < self.hw.num_registers,
                    Err(e) => spec_r is Err && e == LpErr::IR(spec_r->Err_0),
                }
            }),
        decreases esize(ast.model()),
    {
        let ghost st0 = old(st).model();
        let ghost nr = self.hw.num_registers;
        let ghost nc = self.hw.num_cachelines;
        match ast {
            Expr::Num(n) => {
                let inst = Inst::Store(*n, st.next_reg);
                let reg = self.emit_leaf(ast, inst, st);
                Ok(reg)
            },
            Expr::Var(v) => {
                let inst = Inst::Transfer(v.clone(), st.next_reg);
                let reg = self.emit_leaf(ast, inst, st);
                let ghost st1 = st.model();
                if !vars_contains(&st.variables, v) {
                    st.variables.push(v.clone());
                    proof {
                        assert(vars_view(st.variables@) =~= st1.variables.push(v@));
                    }
                }
                proof {
                    assert(st.model() =~= GenState {
                        variables: vars_insert(st1.variables, v@),
                        ..st1
                    });
                }
                Ok(reg)
            },
            Expr::UnaryOp(op, e) => {
                if !matches!(op, Operator::Sub) {
                    return Err(LpErr::IR(IrError::InvalidUnaryOperator(*op)));
                }
                let zero = Expr::Num(0);
                let mut left_reg = match self.ast_to_ir(&zero, st) {
                    Ok(reg) => reg,
                    Err(e) => return Err(e),
                };
                let mut right_reg = match self.ast_to_ir(e, st) {
                    Ok(reg) => reg,
                    Err(e) => return Err(e),
                };
                self.fetch_if_necessary(&mut left_reg, &zero, st);
                self.fetch_if_necessary(&mut right_reg, e, st);
                let ghost st4 = st.model();
                let ghost code4 = insts_model(st.code@);
                st.code.push(Inst::Sub(left_reg, right_reg));
                proof {
                    assert(insts_model(st.code@) =~= code4.push(InstV::Sub(left_reg, right_reg)));
                }
                let owned = st.rmap[right_reg as usize].is_some();
                proof {
                    assert(st4.rmap[right_reg as int] == rmap_view(st.rmap@)[right_reg as int]);
                }
                if owned {
                    st.rmap.set(right_reg as usize, Some(ast.duplicate()));
                }
                let ghost st5 = st.model();
                mmap_set(&mut st.mmap, ast, Location::Reg(right_reg));
                proof {
                    assert((st.model(), right_reg) =~= combine_model(
                        ast.model(),
                        Operator::Sub,
                        left_reg,
                        right_reg,
                        st4,
                    ));
                }
                Ok(right_reg)
            },
            Expr::BinaryOp(left, op, right) => {
                let mut left_reg = match self.ast_to_ir(left, st) {
                    Ok(reg) => reg,
                    Err(e) => return Err(e),
                };
                let mut right_reg = match self.ast_to_ir(right, st) {
                    Ok(reg) => reg,
                    Err(e) => return Err(e),
                };
                self.fetch_if_necessary(&mut left_reg, left, st);
                self.fetch_if_necessary(&mut right_reg, right, st);
                let ghost st4 = st.model();
                let inst = match op {
                    Operator::Add => Inst::Add(left_reg, right_reg),
                    Operator::Sub => Inst::Sub(left_reg, right_reg),
                    Operator::Mul => Inst::Mul(left_reg, right_reg),
                    Operator::Div => Inst::Div(left_reg, right_reg),
                    Operator::Shl => Inst::Shl(left_reg, right_reg),
                    Operator::Shr => Inst::Shr(left_reg, right_reg),
                };
                let ghost code4 = insts_model(st.code@);
                st.code.push(inst);
                proof {
                    assert(insts_model(st.code@) =~= code4.push(binop_inst(*op, left_reg, right_reg)));
                }
                let owned = st.rmap[right_reg as usize].is_some();
                proof {
                    assert(st4.rmap[right_reg as int] == rmap_view(st.rmap@)[right_reg as int]);
                }
                if owned {
                    st.rmap.set(right_reg as usize, Some(ast.duplicate()));
                }
                let ghost st5 = st.model();
                mmap_set(&mut st.mmap, ast, Location::Reg(right_reg));
                proof {
                    assert((st.model(), right_reg) =~= combine_model(
                        ast.model(),
                        *op,
                        left_reg,
                        right_reg,
                        st4,
                    ));
                }
                Ok(right_reg)
            },
        }
    }

    /// Compiles source text: parse, rewrite with the chosen passes, generate
    /// code, and drop dead stores when the cache optimization is on. Returns
    /// the instruction stream and every free variable the caller must
    /// supply a value for.
    pub fn compile(self, input: &str) -> (r: Result<(Vec<Inst>, Vec<String>), LpErr>)
        requires
            self.hw.num_registers > 0,
            self.hw.num_cachelines > 0,
        ensures
            match r {
                Ok((insts, vars)) => run_parser_model(input@) matches Some(e) && compile_model(
                    e,
                    self.options,
                    self.hw.num_registers,
                    self.hw.num_cachelines,
                ) matches Ok(p) && insts_model(insts@) == p.0 && vars_view(vars@) == p.1,
                Err(err) => (run_parser_model(input@) is None && err is Parse) || (
                run_parser_model(input@) matches Some(e) && compile_model(
                    e,
                    self.options,
                    self.hw.num_registers,
                    self.hw.num_cachelines,
                ) matches Err(ie) && err == LpErr::IR(ie)),
            },
    {
        let mut ast = match run_parser(input) {
            Ok(e) => e,
            Err(err) => {
                return Err(err);
            },
        };
        if self.options.do_constant_folding {
            ast = ast.run_constant_fold();
        }
        if self.options.do_common_factor_elimination {
            ast = ast.extract_common_factors();
        }
        if self.options.do_shift_replacement {
            ast = ast.replace_multiplications_with_bitshifts();
        }

        let (instructions, variables) = match self.generate_ir(&ast) {
            Ok(res) => res,
            Err(err) => {
                return Err(err);
            },
        };

        if self.options.run_cache_optimization {
            let optimized = run_cache_optimization(instructions);
            return Ok((optimized, variables));
        }

        Ok((instructions, variables))
    }

    /// Generates the full instruction stream for a tree: the generated code
    /// with the final `Result` appended, and every free variable name in
    /// order of first sight.
    pub fn generate_ir(&self, ast: &Expr) -> (r: Result<(Vec<Inst>, Vec<String>), LpErr>)
        requires
            self.hw.num_registers > 0,
            self.hw.num_cachelines > 0,
        ensures
            ({
                let spec_r = generate_model(
                    ast.model(),
                    self.hw.num_registers,
                    self.hw.num_cachelines,
                );
                match r {
                    Ok((code, vars)) => spec_r matches Ok(sp) && insts_model(code@) == sp.0
                        && vars_view(vars@) == sp.1,
                    Err(e) => spec_r is Err && e == LpErr::IR(spec_r->Err_0),
                }
            }),
    {
        let mut rmap: Vec<Option<Expr>> = Vec::new();
        let mut i: usize = 0;
        while i < self.hw.num_registers as usize
            invariant
                i <= self.hw.num_registers as usize,
                rmap@.len() == i,
                forall|k: int| 0 <= k < i ==> rmap@[k] is None,
            decreases self.hw.num_registers as usize - i,
        {
            rmap.push(None);
            i = i + 1;
        }
        let mut st = GenSt {
            next_reg: 0,
            ram_idx: 0,
            code: Vec::new(),
            variables: Vec::new(),
            mmap: Vec::new(),
            rmap,
        };
        proof {
            assert(st.model() =~= init_gen_state(self.hw.num_registers));
        }
        let result_reg = match self.ast_to_ir(ast, &mut st) {
            Ok(reg) => reg,
            Err(e) => return Err(e),
        };
        let ghost code_before = insts_model(st.code@);
        let mut code = st.code;
        code.push(Inst::Result(result_reg));
        proof {
            assert(insts_model(code@) =~= code_before.push(InstV::Result(result_reg)));
        }
        Ok((code, st.variables))
    }
}


} // verus!
