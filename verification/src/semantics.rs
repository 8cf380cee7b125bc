//! The arithmetic of the machine, stated once and shared by the constant
//! folder, the interpreter and the proofs about them.
//!
//! All arithmetic is on 32-bit signed integers and wraps on overflow;
//! division truncates toward zero, and the one quotient that overflows
//! (`i32::MIN / -1`) wraps to `i32::MIN`. Shift counts are reinterpreted as
//! unsigned; a count of 32 or more (which includes every negative count)
//! yields zero instead of trapping.

use vstd::prelude::*;
use crate::types::{ExprV, Operator};

verus! {

/// 32-bit wrapping addition.
pub open spec fn add_wrap(a: i32, b: i32) -> i32 {
    vstd::wrapping::i32_specs::wrapping_add(a, b)
}

/// 32-bit wrapping subtraction.
pub open spec fn sub_wrap(a: i32, b: i32) -> i32 {
    vstd::wrapping::i32_specs::wrapping_sub(a, b)
}

/// 32-bit wrapping multiplication.
pub open spec fn mul_wrap(a: i32, b: i32) -> i32 {
    vstd::wrapping::i32_specs::wrapping_mul(a, b)
}

/// Truncating 32-bit division; `i32::MIN / -1` wraps.
pub open spec fn div_wrap(a: i32, b: i32) -> i32
    recommends
        b != 0,
{
    match a.checked_div(b) {
        Some(q) => q,
        None => i32::MIN,
    }
}

/// Left shift with the count read as unsigned; 32 or more yields zero.
pub open spec fn shl_sat(a: i32, count: i32) -> i32 {
    if count as u32 >= 32 {
        0
    } else {
        a << (count as u32)
    }
}

/// Right (arithmetic) shift with the count read as unsigned; 32 or more
/// yields zero.
pub open spec fn shr_sat(a: i32, count: i32) -> i32 {
    if count as u32 >= 32 {
        0
    } else {
        a >> (count as u32)
    }
}

/// What a binary instruction computes from its two operands, or `None` for
/// a division by zero.
pub open spec fn apply_op(op: Operator, a: i32, b: i32) -> Option<i32> {
    match op {
        Operator::Add => Some(add_wrap(a, b)),
        Operator::Sub => Some(sub_wrap(a, b)),
        Operator::Mul => Some(mul_wrap(a, b)),
        Operator::Div => if b == 0 {
            None
        } else {
            Some(div_wrap(a, b))
        },
        Operator::Shl => Some(shl_sat(a, b)),
        Operator::Shr => Some(shr_sat(a, b)),
    }
}

/// Direct evaluation of a closed surface-language expression: no variables,
/// negation as the only unary operator, `+ - * /` as the binary operators,
/// every divisor non-zero. `None` on anything else.
pub open spec fn eval_const(e: ExprV) -> Option<i32>
    decreases e,
{
    match e {
        ExprV::Num(n) => Some(n),
        ExprV::Var(_) => None,
        ExprV::UnaryOp(op, e1) => {
            if op == Operator::Sub {
                match eval_const(*e1) {
                    Some(v) => Some(sub_wrap(0, v)),
                    None => None,
                }
            } else {
                None
            }
        },
        ExprV::BinaryOp(l, op, r) => {
            if op == Operator::Shl || op == Operator::Shr {
                None
            } else {
                match (eval_const(*l), eval_const(*r)) {
                    (Some(a), Some(b)) => apply_op(op, a, b),
                    _ => None,
                }
            }
        },
    }
}

/// Whether a character is a decimal digit.
pub open spec fn is_digit_char(c: char) -> bool {
    48 <= c as u32 <= 57
}

/// Whether every character of a sequence is a decimal digit.
pub open spec fn all_digit_chars(ds: Seq<char>) -> bool {
    forall|k: int| 0 <= k < ds.len() ==> is_digit_char(#[trigger] ds[k])
}

/// The value of a sequence of decimal digits, most significant first.
pub open spec fn digits_value(ds: Seq<char>) -> int
    decreases ds.len(),
{
    if ds.len() == 0 {
        0
    } else {
        digits_value(ds.drop_last()) * 10 + (ds.last() as u32 - 48)
    }
}

pub proof fn lemma_digits_value_nonneg(ds: Seq<char>)
    requires
        forall|k: int| 0 <= k < ds.len() ==> is_digit_char(#[trigger] ds[k]),
    ensures
        digits_value(ds) >= 0,
    decreases ds.len(),
{
    if ds.len() > 0 {
        lemma_digits_value_nonneg(ds.drop_last());
    }
}

pub proof fn lemma_digits_value_prefix(ds: Seq<char>, k: int)
    requires
        forall|j: int| 0 <= j < ds.len() ==> is_digit_char(#[trigger] ds[j]),
        0 <= k <= ds.len(),
    ensures
        digits_value(ds.take(k)) <= digits_value(ds),
    decreases ds.len() - k,
{
    if k < ds.len() {
        lemma_digits_value_prefix(ds, k + 1);
        lemma_digits_value_nonneg(ds.take(k));
        assert(ds.take(k + 1).drop_last() =~= ds.take(k));
        assert(ds.take(k + 1).last() == ds[k]);
        assert(digits_value(ds.take(k)) * 10 >= digits_value(ds.take(k))) by (nonlinear_arith)
            requires
                digits_value(ds.take(k)) >= 0,
        ;
    } else {
        assert(ds.take(k) =~= ds);
    }
}

/// What parsing the text supplied for a variable yields: an optional sign,
/// then one or more decimal digits and nothing else, with the value in
/// 32-bit signed range.
pub open spec fn parse_i32_model(s: Seq<char>) -> Option<i32> {
    if s.len() == 0 {
        None
    } else {
        let ds = if s[0] == '-' || s[0] == '+' {
            s.drop_first()
        } else {
            s
        };
        let neg = s[0] == '-';
        if ds.len() == 0 || !all_digit_chars(ds) {
            None
        } else {
            let v = digits_value(ds);
            if neg && v <= 0x8000_0000 {
                Some((-v) as i32)
            } else if !neg && v <= 0x7fff_ffff {
                Some(v as i32)
            } else {
                None
            }
        }
    }
}

} // verus!
