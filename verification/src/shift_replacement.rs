//! Shift replacement: rewrites multiplication and division by a power-of-two
//! literal into a shift by its base-two logarithm.

use vstd::prelude::*;
use vstd::arithmetic::power2::pow2;
use crate::types::{Expr, ExprV, Operator};

verus! {

/// Whether a literal is a positive power of two. The bit identity
/// `n & (n - 1) == 0` also holds of zero, so zero is ruled out explicitly.
pub open spec fn is_pow2_literal(n: i32) -> bool {
    n > 0 && n & ((n - 1) as i32) == 0
}

/// The base-two logarithm, rounded down.
pub open spec fn log2(n: nat) -> nat
    decreases n,
{
    if n <= 1 {
        0
    } else {
        1 + log2(n / 2)
    }
}

/// `log2` stays below 31 on any positive `i32` value.
pub proof fn lemma_log2_bound(n: nat)
    requires
        1 <= n <= i32::MAX,
    ensures
        log2(n) <= 30,
        pow2(log2(n)) <= n,
    decreases n,
{
    if n > 1 {
        lemma_log2_bound(n / 2);
        assert(pow2(log2(n)) == 2 * pow2(log2(n / 2))) by {
            vstd::arithmetic::power2::lemma_pow2_unfold(log2(n));
        }
        assert(log2(n / 2) <= 29) by {
            if log2(n / 2) > 30 {
                vstd::arithmetic::power2::lemma_pow2_strictly_increases(30, log2(n / 2));
            }
            vstd::arithmetic::power2::lemma2_to64();
        }
    } else {
        vstd::arithmetic::power2::lemma2_to64();
    }
}

/// The shift amount that replaces a power-of-two factor or divisor.
pub open spec fn shift_amount(n: i32) -> i32
    recommends
        n > 0,
{
    log2(n as nat) as i32
}

/// Computes the base-two logarithm of a positive literal by repeated halving.
fn log2_literal(n: i32) -> (r: i32)
    requires
        n > 0,
    ensures
        r == shift_amount(n),
        0 <= r <= 30,
{
    let mut m: i32 = n;
    let mut k: u32 = 0;
    proof {
        lemma_log2_bound(n as nat);
        assert(pow2(0) == 1) by {
            vstd::arithmetic::power2::lemma2_to64();
        }
    }
    while m > 1
        invariant
            1 <= m <= n <= i32::MAX,
            log2(n as nat) == k + log2(m as nat),
            log2(n as nat) <= 30,
            pow2(k as nat) * m <= n,
        decreases m,
    {
        proof {
            assert(pow2((k + 1) as nat) == 2 * pow2(k as nat)) by {
                vstd::arithmetic::power2::lemma_pow2_unfold((k + 1) as nat);
            }
            assert(pow2((k + 1) as nat) * (m as int / 2) <= pow2(k as nat) * m) by (nonlinear_arith)
                requires
                    m >= 1,
                    pow2((k + 1) as nat) == 2 * pow2(k as nat),
            ;
            assert(pow2(k as nat) >= 1) by {
                vstd::arithmetic::power2::lemma_pow2_pos(k as nat);
            }
            assert(k < 31) by {
                if k >= 31 {
                    if k > 31 {
                        vstd::arithmetic::power2::lemma_pow2_strictly_increases(31, k as nat);
                    }
                    vstd::arithmetic::power2::lemma2_to64_rest();
                    assert(pow2(k as nat) * m >= pow2(k as nat)) by (nonlinear_arith)
                        requires
                            m >= 1,
                            pow2(k as nat) >= 0,
                    ;
                }
            }
        }
        m = m / 2;
        k = k + 1;
    }
    k as i32
}

/// What shift replacement produces. A multiplication whose left operand is a
/// power-of-two literal turns into a left shift of the other operand (which
/// is taken as is); one whose right operand is such a literal keeps the
/// rewritten left operand. A division rewrites only a literal right operand,
/// since shifting by a variable divisor is never legal. Everything else is
/// rewritten recursively.
pub open spec fn shift_model(e: ExprV) -> ExprV
    decreases e,
{
    match e {
        ExprV::Num(_) => e,
        ExprV::Var(_) => e,
        ExprV::UnaryOp(op, e1) => ExprV::UnaryOp(op, Box::new(shift_model(*e1))),
        ExprV::BinaryOp(l, op, r) => {
            if op == Operator::Mul {
                if *l is Num && is_pow2_literal(l->Num_0) {
                    ExprV::BinaryOp(r, Operator::Shl, Box::new(ExprV::Num(shift_amount(l->Num_0))))
                } else if *r is Num && is_pow2_literal(r->Num_0) {
                    ExprV::BinaryOp(
                        Box::new(shift_model(*l)),
                        Operator::Shl,
                        Box::new(ExprV::Num(shift_amount(r->Num_0))),
                    )
                } else {
                    ExprV::BinaryOp(Box::new(shift_model(*l)), op, Box::new(shift_model(*r)))
                }
            } else if op == Operator::Div {
                if *r is Num && is_pow2_literal(r->Num_0) {
                    ExprV::BinaryOp(
                        Box::new(shift_model(*l)),
                        Operator::Shr,
                        Box::new(ExprV::Num(shift_amount(r->Num_0))),
                    )
                } else {
                    ExprV::BinaryOp(Box::new(shift_model(*l)), op, Box::new(shift_model(*r)))
                }
            } else {
                ExprV::BinaryOp(Box::new(shift_model(*l)), op, Box::new(shift_model(*r)))
            }
        },
    }
}

/// The shift-replacement pass.
pub trait ShiftReplacement {
    fn replace_multiplications_with_bitshifts(self) -> Self;
}

impl ShiftReplacement for Expr {
    /// Rewrites multiplications and divisions by power-of-two literals into
    /// shifts.
    fn replace_multiplications_with_bitshifts(self) -> (r: Expr)
        ensures
            r.model() == shift_model(self.model()),
        decreases self,
    {
        match self {
            Expr::Num(_) => self,
            Expr::Var(_) => self,
            Expr::UnaryOp(op, expr) => {
                let ghost em = expr.model();
                let inner = (*expr).replace_multiplications_with_bitshifts();
                let res = Expr::UnaryOp(op, Box::new(inner));
                proof {
                    assert(res.model() == ExprV::UnaryOp(op, Box::new(shift_model(em))));
                }
                res
            },
            Expr::BinaryOp(left, Operator::Mul, right) => {
                let ghost lm = left.model();
                let ghost rm = right.model();
                let left_pow2: Option<i32> = match &*left {
                    Expr::Num(lv) => {
                        if *lv > 0 && *lv & (*lv - 1) == 0 {
                            Some(*lv)
                        } else {
                            None
                        }
                    },
                    _ => None,
                };
                if let Some(lv) = left_pow2 {
                    let res = Expr::BinaryOp(
                        right,
                        Operator::Shl,
                        Box::new(Expr::Num(log2_literal(lv))),
                    );
                    proof {
                        crate::types::lemma_model_binop(&res, rm, Operator::Shl, ExprV::Num(shift_amount(lv)));
                    }
                    res
                } else {
                    let right_pow2: Option<i32> = match &*right {
                        Expr::Num(rv) => {
                            if *rv > 0 && *rv & (*rv - 1) == 0 {
                                Some(*rv)
                            } else {
                                None
                            }
                        },
                        _ => None,
                    };
                    if let Some(rv) = right_pow2 {
                        let new_left = (*left).replace_multiplications_with_bitshifts();
                        let res = Expr::BinaryOp(
                            Box::new(new_left),
                            Operator::Shl,
                            Box::new(Expr::Num(log2_literal(rv))),
                        );
                        proof {
                            crate::types::lemma_model_binop(
                                &res,
                                shift_model(lm),
                                Operator::Shl,
                                ExprV::Num(shift_amount(rv)),
                            );
                        }
                        res
                    } else {
                        let new_left = (*left).replace_multiplications_with_bitshifts();
                        let new_right = (*right).replace_multiplications_with_bitshifts();
                        let res = Expr::BinaryOp(
                            Box::new(new_left),
                            Operator::Mul,
                            Box::new(new_right),
                        );
                        proof {
                            crate::types::lemma_model_binop(&res, shift_model(lm), Operator::Mul, shift_model(rm));
                        }
                        res
                    }
                }
            },
            Expr::BinaryOp(left, Operator::Div, right) => {
                let ghost lm = left.model();
                let ghost rm = right.model();
                let right_pow2: Option<i32> = match &*right {
                    Expr::Num(rv) => {
                        if *rv > 0 && *rv & (*rv - 1) == 0 {
                            Some(*rv)
                        } else {
                            None
                        }
                    },
                    _ => None,
                };
                if let Some(rv) = right_pow2 {
                    let new_left = (*left).replace_multiplications_with_bitshifts();
                    let res = Expr::BinaryOp(
                        Box::new(new_left),
                        Operator::Shr,
                        Box::new(Expr::Num(log2_literal(rv))),
                    );
                    proof {
                        crate::types::lemma_model_binop(
                            &res,
                            shift_model(lm),
                            Operator::Shr,
                            ExprV::Num(shift_amount(rv)),
                        );
                    }
                    res
                } else {
                    let new_left = (*left).replace_multiplications_with_bitshifts();
                    let new_right = (*right).replace_multiplications_with_bitshifts();
                    let res = Expr::BinaryOp(
                        Box::new(new_left),
                        Operator::Div,
                        Box::new(new_right),
                    );
                    proof {
                        crate::types::lemma_model_binop(&res, shift_model(lm), Operator::Div, shift_model(rm));
                    }
                    res
                }
            },
            Expr::BinaryOp(left, op, right) => {
                let ghost lm = left.model();
                let ghost rm = right.model();
                let new_left = (*left).replace_multiplications_with_bitshifts();
                let new_right = (*right).replace_multiplications_with_bitshifts();
                let res = Expr::BinaryOp(Box::new(new_left), op, Box::new(new_right));
                proof {
                    crate::types::lemma_model_binop(&res, shift_model(lm), op, shift_model(rm));
                }
                res
            },
        }
    }
}

} // verus!
