//! Common-factor elimination: rewrites `a*f + f*b` into `f * (a + b)` when
//! both sides of an addition share a structurally equal multiplicative factor.

use vstd::prelude::*;
use crate::types::{Expr, ExprV, expressions_equal};
use crate::types::Operator;

verus! {

/// The multiplicative factors of one side of an addition: a `Mul` chain is
/// flattened into its leaves, anything else is its own single factor.
pub open spec fn factors_model(e: ExprV) -> Seq<ExprV>
    decreases e,
{
    match e {
        ExprV::BinaryOp(l, op, r) => {
            if op == Operator::Mul {
                factors_model(*l) + factors_model(*r)
            } else {
                seq![e]
            }
        },
        _ => seq![e],
    }
}

/// The first factor of the left list that also occurs in the right list.
pub open spec fn first_common_factor(lf: Seq<ExprV>, rf: Seq<ExprV>) -> Option<ExprV>
    decreases lf.len(),
{
    if lf.len() == 0 {
        None
    } else if rf.contains(lf[0]) {
        Some(lf[0])
    } else {
        first_common_factor(lf.drop_first(), rf)
    }
}

proof fn lemma_first_common_none(lf: Seq<ExprV>, rf: Seq<ExprV>)
    requires
        forall|k: int| 0 <= k < lf.len() ==> !rf.contains(#[trigger] lf[k]),
    ensures
        first_common_factor(lf, rf) is None,
    decreases lf.len(),
{
    if lf.len() > 0 {
        lemma_first_common_none(lf.drop_first(), rf);
    }
}

proof fn lemma_first_common_at(lf: Seq<ExprV>, rf: Seq<ExprV>, i: int)
    requires
        0 <= i < lf.len(),
        forall|k: int| 0 <= k < i ==> !rf.contains(#[trigger] lf[k]),
        rf.contains(lf[i]),
    ensures
        first_common_factor(lf, rf) == Some(lf[i]),
    decreases i,
{
    if i > 0 {
        lemma_first_common_at(lf.drop_first(), rf, i - 1);
    }
}

/// Flattens a `Mul` chain into the list of its leaf factors.
pub fn get_multiplication_factors(expr: &Expr) -> (r: Vec<Expr>)
    ensures
        r@.map(|i: int, f: Expr| f.model()) == factors_model(expr.model()),
        r@.len() >= 1,
    decreases expr,
{
    match expr {
        Expr::BinaryOp(left, Operator::Mul, right) => {
            let mut factors = get_multiplication_factors(left);
            let mut right_factors = get_multiplication_factors(right);
            let ghost fl = factors@.map(|i: int, f: Expr| f.model());
            let ghost fr = right_factors@.map(|i: int, f: Expr| f.model());
            factors.append(&mut right_factors);
            proof {
                assert(factors@.map(|i: int, f: Expr| f.model()) =~= fl + fr);
            }
            factors
        },
        _ => {
            let mut factors: Vec<Expr> = Vec::new();
            factors.push(expr.duplicate());
            proof {
                assert(factors@.map(|i: int, f: Expr| f.model()) =~= seq![expr.model()]);
            }
            factors
        },
    }
}

/// Collects, in nested-loop order, every factor of the left side that is
/// structurally equal to some factor of the right side. Only whether the
/// list is empty and its first entry matter to the rewrite.
pub fn extract_factors(left: &Expr, right: &Expr) -> (r: Vec<Expr>)
    ensures
        r@.len() == 0 <==> first_common_factor(
            factors_model(left.model()),
            factors_model(right.model()),
        ) is None,
        r@.len() > 0 ==> first_common_factor(
            factors_model(left.model()),
            factors_model(right.model()),
        ) == Some(r@[0].model()),
{
    let left_factors = get_multiplication_factors(left);
    let right_factors = get_multiplication_factors(right);
    let ghost lfm = factors_model(left.model());
    let ghost rfm = factors_model(right.model());

    let mut common_factors: Vec<Expr> = Vec::new();

    let mut i: usize = 0;
    while i < left_factors.len()
        invariant
            left_factors@.map(|k: int, f: Expr| f.model()) == lfm,
            right_factors@.map(|k: int, f: Expr| f.model()) == rfm,
            i <= left_factors@.len(),
            common_factors@.len() == 0 ==> forall|k: int|
                0 <= k < i ==> !rfm.contains(#[trigger] lfm[k]),
            common_factors@.len() > 0 ==> first_common_factor(lfm, rfm)
                == Some(common_factors@[0].model()),
        decreases left_factors@.len() - i,
    {
        let mut j: usize = 0;
        while j < right_factors.len()
            invariant
                left_factors@.map(|k: int, f: Expr| f.model()) == lfm,
                right_factors@.map(|k: int, f: Expr| f.model()) == rfm,
                i < left_factors@.len(),
                j <= right_factors@.len(),
                common_factors@.len() == 0 ==> forall|k: int|
                    0 <= k < i ==> !rfm.contains(#[trigger] lfm[k]),
                common_factors@.len() == 0 ==> forall|k: int|
                    0 <= k < j ==> rfm[k] != lfm[i as int],
                common_factors@.len() > 0 ==> first_common_factor(lfm, rfm)
                    == Some(common_factors@[0].model()),
            decreases right_factors@.len() - j,
    {
            proof {
                assert(left_factors@[i as int].model() == lfm[i as int]);
                assert(right_factors@[j as int].model() == rfm[j as int]);
            }
            if expressions_equal(&left_factors[i], &right_factors[j]) {
                proof {
                    if common_factors@.len() == 0 {
                        assert(rfm.contains(lfm[i as int]));
                        lemma_first_common_at(lfm, rfm, i as int);
                    }
                }
                common_factors.push(left_factors[i].duplicate());
            }
            j = j + 1;
        }
        proof {
            if common_factors@.len() == 0 {
                assert(forall|k: int| 0 <= k < rfm.len() ==> rfm[k] != lfm[i as int]);
                assert(!rfm.contains(lfm[i as int]));
            }
        }
        i = i + 1;
    }
    proof {
        if common_factors@.len() == 0 {
            lemma_first_common_none(lfm, rfm);
        }
    }
    common_factors
}

/// What removing one occurrence of a factor from a `Mul` chain produces: the
/// first occurrence found (left operand before right operand, shallow before
/// deep) disappears; a side that is the factor itself becomes the literal
/// one; a chain without the factor is returned unchanged.
pub open spec fn remove_factor_model(e: ExprV, f: ExprV) -> ExprV
    decreases e,
{
    match e {
        ExprV::BinaryOp(l, op, r) => {
            if op == Operator::Mul {
                if *l == f {
                    *r
                } else if *r == f {
                    *l
                } else {
                    let nl = remove_factor_model(*l, f);
                    if nl != *l {
                        ExprV::BinaryOp(Box::new(nl), Operator::Mul, r)
                    } else {
                        let nr = remove_factor_model(*r, f);
                        if nr != *r {
                            ExprV::BinaryOp(l, Operator::Mul, Box::new(nr))
                        } else {
                            e
                        }
                    }
                }
            } else {
                if e == f {
                    ExprV::Num(1)
                } else {
                    e
                }
            }
        },
        _ => {
            if e == f {
                ExprV::Num(1)
            } else {
                e
            }
        },
    }
}

/// Removes one occurrence of `factor` from a `Mul` chain.
pub fn remove_factor_from_expr(expr: &Expr, factor: &Expr) -> (r: Expr)
    ensures
        r.model() == remove_factor_model(expr.model(), factor.model()),
    decreases expr,
{
    match expr {
        Expr::BinaryOp(left, Operator::Mul, right) => {
            if expressions_equal(left, factor) {
                right.duplicate()
            } else if expressions_equal(right, factor) {
                left.duplicate()
            } else {
                let new_left = remove_factor_from_expr(left, factor);
                if !expressions_equal(&new_left, left) {
                    let res = Expr::BinaryOp(
                        Box::new(new_left),
                        Operator::Mul,
                        Box::new(right.duplicate()),
                    );
                    proof {
                        crate::types::lemma_model_binop(
                            &res,
                            remove_factor_model(left.model(), factor.model()),
                            Operator::Mul,
                            right.model(),
                        );
                    }
                    res
                } else {
                    let new_right = remove_factor_from_expr(right, factor);
                    if !expressions_equal(&new_right, right) {
                        let res = Expr::BinaryOp(
                            Box::new(left.duplicate()),
                            Operator::Mul,
                            Box::new(new_right),
                        );
                        proof {
                            crate::types::lemma_model_binop(
                                &res,
                                left.model(),
                                Operator::Mul,
                                remove_factor_model(right.model(), factor.model()),
                            );
                        }
                        res
                    } else {
                        expr.duplicate()
                    }
                }
            }
        },
        _ => {
            if expressions_equal(expr, factor) {
                Expr::Num(1)
            } else {
                expr.duplicate()
            }
        },
    }
}

/// What common-factor elimination produces. Both sides of an addition are
/// rewritten first; if they then share a factor, the first one found is
/// pulled out in front of the remaining sum. Other nodes are rewritten
/// recursively.
pub open spec fn cfe_model(e: ExprV) -> ExprV
    decreases e,
{
    match e {
        ExprV::BinaryOp(l, op, r) => {
            if op == Operator::Add {
                let lc = cfe_model(*l);
                let rc = cfe_model(*r);
                match first_common_factor(factors_model(lc), factors_model(rc)) {
                    None => ExprV::BinaryOp(Box::new(lc), Operator::Add, Box::new(rc)),
                    Some(f) => ExprV::BinaryOp(
                        Box::new(f),
                        Operator::Mul,
                        Box::new(ExprV::BinaryOp(
                            Box::new(remove_factor_model(lc, f)),
                            Operator::Add,
                            Box::new(remove_factor_model(rc, f)),
                        )),
                    ),
                }
            } else {
                ExprV::BinaryOp(Box::new(cfe_model(*l)), op, Box::new(cfe_model(*r)))
            }
        },
        ExprV::UnaryOp(op, e1) => ExprV::UnaryOp(op, Box::new(cfe_model(*e1))),
        _ => e,
    }
}

/// The common-factor-elimination pass.
pub trait CommonFactorElimination {
    fn extract_common_factors(self) -> Self;
}

impl CommonFactorElimination for Expr {
    /// Pulls the first shared multiplicative factor out of every addition.
    fn extract_common_factors(self) -> (r: Expr)
        ensures
            r.model() == cfe_model(self.model()),
        decreases self,
    {
        match self {
            Expr::BinaryOp(left, Operator::Add, right) => {
                let ghost lm = left.model();
                let ghost rm = right.model();
                let left = (*left).extract_common_factors();
                let right = (*right).extract_common_factors();
                let ghost lc = cfe_model(lm);
                let ghost rc = cfe_model(rm);

                let common_factors = extract_factors(&left, &right);
                if common_factors.len() == 0 {
                    let res = Expr::BinaryOp(Box::new(left), Operator::Add, Box::new(right));
                    proof {
                        crate::types::lemma_model_binop(&res, lc, Operator::Add, rc);
                    }
                    return res;
                }

                let factor = &common_factors[0];
                let ghost f = factor.model();
                proof {
                    assert(first_common_factor(factors_model(lc), factors_model(rc)) == Some(f));
                }
                let left_remainder = remove_factor_from_expr(&left, factor);
                let right_remainder = remove_factor_from_expr(&right, factor);

                let sum = Expr::BinaryOp(
                    Box::new(left_remainder),
                    Operator::Add,
                    Box::new(right_remainder),
                );
                proof {
                    crate::types::lemma_model_binop(
                        &sum,
                        remove_factor_model(lc, f),
                        Operator::Add,
                        remove_factor_model(rc, f),
                    );
                }

                let res = Expr::BinaryOp(Box::new(factor.duplicate()), Operator::Mul, Box::new(sum));
                proof {
                    crate::types::lemma_model_binop(&res, f, Operator::Mul, sum.model());
                }
                res
            },
            Expr::BinaryOp(left, op, right) => {
                let ghost lm = left.model();
                let ghost rm = right.model();
                let left = (*left).extract_common_factors();
                let right = (*right).extract_common_factors();
                let res = Expr::BinaryOp(Box::new(left), op, Box::new(right));
                proof {
                    crate::types::lemma_model_binop(&res, cfe_model(lm), op, cfe_model(rm));
                }
                res
            },
            Expr::UnaryOp(op, expr) => {
                let ghost em = expr.model();
                let expr = (*expr).extract_common_factors();
                let res = Expr::UnaryOp(op, Box::new(expr));
                proof {
                    assert(res.model() == ExprV::UnaryOp(op, Box::new(cfe_model(em))));
                }
                res
            },
            _ => self,
        }
    }
}

} // verus!
