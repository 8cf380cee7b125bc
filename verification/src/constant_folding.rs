//! Constant folding: a bottom-up rewrite that replaces every constant
//! subtree by its value.

use vstd::prelude::*;
use crate::semantics::{add_wrap, sub_wrap, mul_wrap, div_wrap};
use crate::types::{Expr, ExprV, Operator};

verus! {

/// What constant folding produces: children are folded first; a negation of
/// a literal becomes the negated literal; a binary node over two literals
/// becomes their result, except that a division by the literal zero is left
/// in place, as are the shift operators.
pub open spec fn fold_model(e: ExprV) -> ExprV
    decreases e,
{
    match e {
        ExprV::Num(_) => e,
        ExprV::Var(_) => e,
        ExprV::UnaryOp(op, e1) => {
            let f = fold_model(*e1);
            if op == Operator::Sub && f is Num {
                ExprV::Num(sub_wrap(0, f->Num_0))
            } else {
                ExprV::UnaryOp(op, Box::new(f))
            }
        },
        ExprV::BinaryOp(l, op, r) => {
            let lf = fold_model(*l);
            let rf = fold_model(*r);
            if lf is Num && rf is Num {
                let a = lf->Num_0;
                let b = rf->Num_0;
                match op {
                    Operator::Add => ExprV::Num(add_wrap(a, b)),
                    Operator::Sub => ExprV::Num(sub_wrap(a, b)),
                    Operator::Mul => ExprV::Num(mul_wrap(a, b)),
                    Operator::Div => if b == 0 {
                        ExprV::BinaryOp(Box::new(lf), op, Box::new(rf))
                    } else {
                        ExprV::Num(div_wrap(a, b))
                    },
                    Operator::Shl => ExprV::BinaryOp(Box::new(lf), op, Box::new(rf)),
                    Operator::Shr => ExprV::BinaryOp(Box::new(lf), op, Box::new(rf)),
                }
            } else {
                ExprV::BinaryOp(Box::new(lf), op, Box::new(rf))
            }
        },
    }
}

/// The constant-folding pass.
pub trait ConstantFold {
    fn run_constant_fold(self) -> Self;
}

impl ConstantFold for Expr {
    /// Folds every constant subtree of this expression to its value.
    fn run_constant_fold(self) -> (r: Expr)
        ensures
            r.model() == fold_model(self.model()),
        decreases self,
    {
        match self {
            Expr::Num(_) => self,
            Expr::Var(_) => self,
            Expr::UnaryOp(operator, expr) => {
                let e = if !expr.is_num() {
                    (*expr).run_constant_fold()
                } else {
                    *expr
                };

                if operator == Operator::Sub {
                    if let Expr::Num(n) = e {
                        return Expr::Num(0i32.wrapping_sub(n));
                    }
                }

                Expr::UnaryOp(operator, Box::new(e))
            },
            Expr::BinaryOp(lhs, operator, rhs) => {
                let l = if !lhs.is_num() {
                    (*lhs).run_constant_fold()
                } else {
                    *lhs
                };

                let r = if !rhs.is_num() {
                    (*rhs).run_constant_fold()
                } else {
                    *rhs
                };

                if let Expr::Num(left) = l {
                    if let Expr::Num(right) = r {
                        let res: i32 = match operator {
                            Operator::Add => left.wrapping_add(right),
                            Operator::Sub => left.wrapping_sub(right),
                            Operator::Mul => left.wrapping_mul(right),
                            Operator::Div => {
                                if right == 0 {
                                    return Expr::BinaryOp(
                                        Box::new(Expr::Num(left)),
                                        operator,
                                        Box::new(Expr::Num(right)),
                                    );
                                }
                                match left.checked_div(right) {
                                    Some(q) => q,
                                    None => i32::MIN,
                                }
                            },
                            Operator::Shl | Operator::Shr => {
                                return Expr::BinaryOp(
                                    Box::new(Expr::Num(left)),
                                    operator,
                                    Box::new(Expr::Num(right)),
                                );
                            },
                        };
                        return Expr::Num(res);
                    }
                }

                Expr::BinaryOp(Box::new(l), operator, Box::new(r))
            },
        }
    }
}

} // verus!
