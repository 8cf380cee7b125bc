//! The shared data model: expression trees, operators, instructions and the
//! error taxonomy, together with their mathematical views.

use vstd::prelude::*;

verus! {

/// A register index. The code generator only produces indices below the
/// configured register count; a presentation layer may map an index to a
/// letter for display.
pub type Reg = u8;

/// An index into the simulated backing store.
pub type MemAddr = usize;

/// An arithmetic operator. `Shl` and `Shr` never appear in a parsed tree;
/// they are introduced only by the shift-replacement pass.
#[derive(Debug, Clone, Copy, PartialEq, Eq, Hash, Structural)]
pub enum Operator {
    Add,
    Sub,
    Mul,
    Div,
    Shl,
    Shr,
}

impl Operator {
    /// The operator written with the given symbol, or the symbol itself back
    /// when it does not denote an operator.
    pub fn try_from(value: char) -> (r: Result<Operator, char>)
        ensures
            r == Operator::spec_try_from(value),
    {
        match value {
            '+' => Ok(Operator::Add),
            '-' => Ok(Operator::Sub),
            '*' => Ok(Operator::Mul),
            '/' => Ok(Operator::Div),
            _ => Err(value),
        }
    }

    pub open spec fn spec_try_from(value: char) -> Result<Operator, char> {
        if value == '+' {
            Ok(Operator::Add)
        } else if value == '-' {
            Ok(Operator::Sub)
        } else if value == '*' {
            Ok(Operator::Mul)
        } else if value == '/' {
            Ok(Operator::Div)
        } else {
            Err(value)
        }
    }
}

/// The expression tree produced by the parser and rewritten by the passes.
/// Two separately built but structurally equal trees count as the same value;
/// `duplicate` yields such a copy.
#[derive(Debug, PartialEq, Eq, Hash)]
pub enum Expr {
    Num(i32),
    Var(String),
    UnaryOp(Operator, Box<Expr>),
    BinaryOp(Box<Expr>, Operator, Box<Expr>),
}

/// The mathematical view of an expression tree: the same shape, with
/// variable names abstracted to character sequences.
pub enum ExprV {
    Num(i32),
    Var(Seq<char>),
    UnaryOp(Operator, Box<ExprV>),
    BinaryOp(Box<ExprV>, Operator, Box<ExprV>),
}

impl Expr {
    /// The mathematical value of this tree.
    pub open spec fn model(&self) -> ExprV
        decreases self,
    {
        match self {
            Expr::Num(n) => ExprV::Num(*n),
            Expr::Var(name) => ExprV::Var(name@),
            Expr::UnaryOp(op, e) => ExprV::UnaryOp(*op, Box::new(e.model())),
            Expr::BinaryOp(l, op, r) => ExprV::BinaryOp(Box::new(l.model()), *op, Box::new(r.model())),
        }
    }

    /// Whether this node is an integer literal.
    pub fn is_num(&self) -> (r: bool)
        ensures
            r == self.model() is Num,
    {
        matches!(self, Expr::Num { .. })
    }

    /// A structurally equal copy of this tree.
    pub fn duplicate(&self) -> (r: Expr)
        ensures
            r.model() == self.model(),
        decreases self,
    {
        match self {
            Expr::Num(n) => Expr::Num(*n),
            Expr::Var(name) => Expr::Var(name.clone()),
            Expr::UnaryOp(op, e) => Expr::UnaryOp(*op, Box::new(e.duplicate())),
            Expr::BinaryOp(l, op, r) => {
                Expr::BinaryOp(Box::new(l.duplicate()), *op, Box::new(r.duplicate()))
            },
        }
    }
}

/// Structural equality of two expression trees, the relation under which the
/// code generator treats two occurrences of a subtree as the same value.
pub fn expressions_equal(a: &Expr, b: &Expr) -> (r: bool)
    ensures
        r == (a.model() == b.model()),
    decreases a,
{
    match (a, b) {
        (Expr::Num(n1), Expr::Num(n2)) => n1 == n2,
        (Expr::Var(v1), Expr::Var(v2)) => v1.eq(v2),
        (Expr::UnaryOp(op1, e1), Expr::UnaryOp(op2, e2)) => {
            op1 == op2 && expressions_equal(e1, e2)
        },
        (Expr::BinaryOp(l1, op1, r1), Expr::BinaryOp(l2, op2, r2)) => {
            op1 == op2 && expressions_equal(l1, l2) && expressions_equal(r1, r2)
        },
        _ => false,
    }
}

/// The model of a binary node is the binary node of the models.
pub proof fn lemma_model_binop(e: &Expr, l: ExprV, op: Operator, r: ExprV)
    requires
        e is BinaryOp,
        e->BinaryOp_0.model() == l,
        e->BinaryOp_1 == op,
        e->BinaryOp_2.model() == r,
    ensures
        e.model() == ExprV::BinaryOp(Box::new(l), op, Box::new(r)),
{
}

/// One instruction of the simulated machine. Binary operations overwrite
/// their second operand register with the result.
#[derive(Debug, Clone, PartialEq, Eq)]
pub enum Inst {
    /// Add two registers, storing the result in the second.
    Add(Reg, Reg),
    /// Subtract the second register from the first, storing the result in the second.
    Sub(Reg, Reg),
    /// Multiply two registers, storing the result in the second.
    Mul(Reg, Reg),
    /// Divide the first register by the second, storing the result in the second.
    Div(Reg, Reg),
    /// Shift the first register left by the second, storing the result in the second.
    Shl(Reg, Reg),
    /// Shift the first register right by the second, storing the result in the second.
    Shr(Reg, Reg),
    /// Store a literal in a register.
    Store(i32, Reg),
    /// Transfer a caller-supplied input value into a register.
    Transfer(String, Reg),
    /// Return the value in the given register and terminate computation.
    Result(Reg),
    /// Write the contents of a register to the backing store.
    Write(Reg, MemAddr),
    /// Load a value from the backing store into a register.
    Load(MemAddr, Reg),
}

/// The mathematical view of an instruction.
pub enum InstV {
    Add(Reg, Reg),
    Sub(Reg, Reg),
    Mul(Reg, Reg),
    Div(Reg, Reg),
    Shl(Reg, Reg),
    Shr(Reg, Reg),
    Store(i32, Reg),
    Transfer(Seq<char>, Reg),
    Result(Reg),
    Write(Reg, MemAddr),
    Load(MemAddr, Reg),
}

impl Inst {
    /// A structurally equal copy of this instruction.
    pub fn duplicate(&self) -> (r: Inst)
        ensures
            r.model() == self.model(),
    {
        match self {
            Inst::Add(a, b) => Inst::Add(*a, *b),
            Inst::Sub(a, b) => Inst::Sub(*a, *b),
            Inst::Mul(a, b) => Inst::Mul(*a, *b),
            Inst::Div(a, b) => Inst::Div(*a, *b),
            Inst::Shl(a, b) => Inst::Shl(*a, *b),
            Inst::Shr(a, b) => Inst::Shr(*a, *b),
            Inst::Store(n, r) => Inst::Store(*n, *r),
            Inst::Transfer(v, r) => Inst::Transfer(v.clone(), *r),
            Inst::Result(r) => Inst::Result(*r),
            Inst::Write(r, addr) => Inst::Write(*r, *addr),
            Inst::Load(addr, r) => Inst::Load(*addr, *r),
        }
    }

    /// The mathematical value of this instruction.
    pub open spec fn model(&self) -> InstV {
        match self {
            Inst::Add(a, b) => InstV::Add(*a, *b),
            Inst::Sub(a, b) => InstV::Sub(*a, *b),
            Inst::Mul(a, b) => InstV::Mul(*a, *b),
            Inst::Div(a, b) => InstV::Div(*a, *b),
            Inst::Shl(a, b) => InstV::Shl(*a, *b),
            Inst::Shr(a, b) => InstV::Shr(*a, *b),
            Inst::Store(n, r) => InstV::Store(*n, *r),
            Inst::Transfer(v, r) => InstV::Transfer(v@, *r),
            Inst::Result(r) => InstV::Result(*r),
            Inst::Write(r, addr) => InstV::Write(*r, *addr),
            Inst::Load(addr, r) => InstV::Load(*addr, *r),
        }
    }
}

/// An instruction and its model always have the same shape.
pub proof fn lemma_inst_model(i: &Inst)
    ensures
        i.model() is Add <==> i is Add,
        i.model() is Sub <==> i is Sub,
        i.model() is Mul <==> i is Mul,
        i.model() is Div <==> i is Div,
        i.model() is Shl <==> i is Shl,
        i.model() is Shr <==> i is Shr,
        i.model() is Store <==> i is Store,
        i.model() is Transfer <==> i is Transfer,
        i.model() is Result <==> i is Result,
        i.model() is Write <==> i is Write,
        i.model() is Load <==> i is Load,
        i is Add ==> i.model()->Add_0 == i->Add_0 && i.model()->Add_1 == i->Add_1,
        i is Sub ==> i.model()->Sub_0 == i->Sub_0 && i.model()->Sub_1 == i->Sub_1,
        i is Mul ==> i.model()->Mul_0 == i->Mul_0 && i.model()->Mul_1 == i->Mul_1,
        i is Div ==> i.model()->Div_0 == i->Div_0 && i.model()->Div_1 == i->Div_1,
        i is Shl ==> i.model()->Shl_0 == i->Shl_0 && i.model()->Shl_1 == i->Shl_1,
        i is Shr ==> i.model()->Shr_0 == i->Shr_0 && i.model()->Shr_1 == i->Shr_1,
        i is Store ==> i.model()->Store_0 == i->Store_0 && i.model()->Store_1 == i->Store_1,
        i is Transfer ==> i.model()->Transfer_0 == i->Transfer_0@
            && i.model()->Transfer_1 == i->Transfer_1,
        i is Result ==> i.model()->Result_0 == i->Result_0,
        i is Write ==> i.model()->Write_0 == i->Write_0 && i.model()->Write_1 == i->Write_1,
        i is Load ==> i.model()->Load_0 == i->Load_0 && i.model()->Load_1 == i->Load_1,
{
}

/// The view of a whole instruction stream.
pub open spec fn insts_model(insts: Seq<Inst>) -> Seq<InstV> {
    insts.map(|i: int, inst: Inst| inst.model())
}

/// Why source text was rejected by the parser.
#[derive(Debug, Clone, Copy, PartialEq, Eq, Structural)]
pub enum ParseError {
    /// The character at this position can start no token.
    UnexpectedChar(usize),
    /// The integer literal starting at this position does not fit in 32 bits.
    LiteralOverflow(usize),
    /// The integer literal starting at this position has a leading zero.
    LeadingZero(usize),
    /// An operand was expected at this token position.
    ExpectedOperand(usize),
    /// An opening parenthesis at this token position is never closed.
    UnbalancedParen(usize),
    /// Leftover tokens follow a complete expression, from this token position on.
    TrailingInput(usize),
}

/// A malformed tree reached the code generator: a unary operator other than
/// negation. The parser never produces one; this is a defensive error path.
#[derive(Debug, Clone, Copy, PartialEq, Eq, Structural)]
pub enum IrError {
    InvalidUnaryOperator(Operator),
}

/// Why execution of an instruction stream failed.
#[derive(Debug, Clone, Copy, PartialEq, Eq, Structural)]
pub enum RuntimeError {
    /// An instruction read a register that holds no value yet.
    UnknownRegister(Reg),
    /// A `Transfer` named a variable absent from the caller-supplied inputs.
    UnknownVariable,
    /// A `Transfer` was executed with no variable map loaded at all.
    NoVariablesLoaded,
    /// The text supplied for a variable is empty.
    EmptyVariable,
    /// The text supplied for a variable does not parse as a 32-bit integer.
    NotANumber,
    /// A `Div` found zero in its divisor register.
    DivisionByZero,
    /// A `Write` or `Load` addressed a backing-store cell that does not exist.
    AddressOutOfRange(MemAddr),
    /// Execution ran past the last instruction without reaching a `Result`.
    NoResult,
}

/// The error type of the whole toolchain, one variant per stage.
#[derive(Debug, Clone, Copy, PartialEq, Eq, Structural)]
pub enum LpErr {
    Parse(ParseError),
    IR(IrError),
    Interpret(RuntimeError),
}

} // verus!

