//! Integer and boolean semantics of formula evaluation.
//!
//! Values inside a formula are integers, booleans or decimals. Everything
//! that is exact is decided here: checked integer arithmetic, the remainder,
//! bitwise operators and shifts, negation, truthiness and equality of exact
//! values, and the errors that evaluation reports. Decimal arithmetic is done
//! by the caller.

use vstd::prelude::*;

use super::parser::{BinOp, UnaryOp};
use crate::text::{int_text, push_int, push_str, string_from_chars};

verus! {

/// Why a formula could not be evaluated.
#[derive(Debug)]
pub enum EvalError {
    /// A variable the formula refers to has no value.
    MissingVariable(String),
    /// Division or remainder by zero.
    DivisionByZero,
    /// An operand does not suit the operation.
    TypeError(String),
}

/// Model of an [`EvalError`].
pub enum EvalErrorView {
    MissingVariable(Seq<char>),
    DivisionByZero,
    TypeError(Seq<char>),
}

impl EvalError {
    pub open spec fn view(&self) -> EvalErrorView {
        match self {
            EvalError::MissingVariable(s) => EvalErrorView::MissingVariable(s@),
            EvalError::DivisionByZero => EvalErrorView::DivisionByZero,
            EvalError::TypeError(s) => EvalErrorView::TypeError(s@),
        }
    }

    /// The text shown for the error.
    pub fn message(&self) -> (s: String)
        ensures
            s@ == eval_error_text(self.view()),
    {
        let mut out: Vec<char> = Vec::new();
        match self {
            EvalError::MissingVariable(name) => {
                push_str(&mut out, "变量 '");
                push_str(&mut out, name.as_str());
                push_str(&mut out, "' 缺失");
            },
            EvalError::DivisionByZero => {
                push_str(&mut out, "除以零");
            },
            EvalError::TypeError(msg) => {
                push_str(&mut out, "类型错误: ");
                push_str(&mut out, msg.as_str());
            },
        }
        string_from_chars(out.as_slice())
    }
}

/// The text shown for an error.
pub open spec fn eval_error_text(e: EvalErrorView) -> Seq<char> {
    match e {
        EvalErrorView::MissingVariable(n) => "变量 '"@ + n + "' 缺失"@,
        EvalErrorView::DivisionByZero => "除以零"@,
        EvalErrorView::TypeError(m) => "类型错误: "@ + m,
    }
}

// ------------------------------------------------------------------
//  Shifts
// ------------------------------------------------------------------

/// Shift distance used for a non-negative shift operand: its low 32 bits,
/// capped at 63.
pub open spec fn shift_amount(shift: int) -> int {
    let low = shift % 0x1_0000_0000;
    if low < 63 {
        low
    } else {
        63
    }
}

/// Message for a negative shift operand.
pub open spec fn negative_shift_text(shift: int) -> Seq<char> {
    "移位位数 "@ + int_text(shift) + " 不能为负数"@
}

/// Turns a shift operand into a shift distance; negative operands are
/// refused.
pub fn checked_shift(shift: i64) -> (r: Result<u32, EvalError>)
    ensures
        shift < 0 <==> r is Err,
        r matches Ok(s) ==> s == shift_amount(shift as int),
        r matches Err(e) ==> e.view() == EvalErrorView::TypeError(negative_shift_text(shift as int)),
{
    if shift < 0 {
        let mut out: Vec<char> = Vec::new();
        push_str(&mut out, "移位位数 ");
        push_int(&mut out, shift);
        push_str(&mut out, " 不能为负数");
        return Err(EvalError::TypeError(string_from_chars(out.as_slice())));
    }
    let low = shift as u32;
    assert(shift >= 0 ==> (shift as u32) == shift % 0x1_0000_0000) by (bit_vector);
    if low < 63 {
        Ok(low)
    } else {
        Ok(63)
    }
}

// ------------------------------------------------------------------
//  Integer arithmetic
// ------------------------------------------------------------------

/// Whether `n` fits in an `i64`.
pub open spec fn fits_i64(n: int) -> bool {
    i64::MIN <= n <= i64::MAX
}

/// Remainder of truncating division: it has the sign of `a` and a
/// magnitude below that of `b`.
pub open spec fn trunc_rem(a: int, b: int) -> int {
    let m = if b < 0 {
        -b
    } else {
        b
    };
    if a >= 0 {
        a % m
    } else {
        -((-a) % m)
    }
}

/// The binary operators whose integer result is computed here.
pub open spec fn is_int_binop(op: BinOp) -> bool {
    match op {
        BinOp::Add | BinOp::Sub | BinOp::Mul | BinOp::Mod | BinOp::BitAnd | BinOp::BitOr
        | BinOp::BitXor | BinOp::ShiftLeft | BinOp::ShiftRight => true,
        _ => false,
    }
}

/// Outcome of an integer binary operation.
pub open spec fn int_binary_spec(op: BinOp, a: i64, b: i64) -> Result<i64, EvalErrorView> {
    match op {
        BinOp::Add => if fits_i64(a + b) {
            Ok((a + b) as i64)
        } else {
            Err(EvalErrorView::TypeError("整数加法溢出"@))
        },
        BinOp::Sub => if fits_i64(a - b) {
            Ok((a - b) as i64)
        } else {
            Err(EvalErrorView::TypeError("整数减法溢出"@))
        },
        BinOp::Mul => if fits_i64(a * b) {
            Ok((a * b) as i64)
        } else {
            Err(EvalErrorView::TypeError("整数乘法溢出"@))
        },
        BinOp::Mod => if b == 0 {
            Err(EvalErrorView::DivisionByZero)
        } else {
            Ok(trunc_rem(a as int, b as int) as i64)
        },
        BinOp::BitAnd => Ok(a & b),
        BinOp::BitOr => Ok(a | b),
        BinOp::BitXor => Ok(a ^ b),
        BinOp::ShiftLeft => if b < 0 {
            Err(EvalErrorView::TypeError(negative_shift_text(b as int)))
        } else {
            Ok(a << (shift_amount(b as int) as u32))
        },
        BinOp::ShiftRight => if b < 0 {
            Err(EvalErrorView::TypeError(negative_shift_text(b as int)))
        } else {
            Ok(a >> (shift_amount(b as int) as u32))
        },
        _ => Err(EvalErrorView::DivisionByZero),
    }
}

fn overflow(what: &str) -> (e: EvalError)
    ensures
        e.view() == EvalErrorView::TypeError(what@),
{
    EvalError::TypeError(what.to_string())
}

/// Remainder of truncating division for `b != 0`.
fn int_rem(a: i64, b: i64) -> (r: i64)
    requires
        b != 0,
        !(a == i64::MIN && b == -1),
    ensures
        r == trunc_rem(a as int, b as int),
{
    let ua: u64 = if a >= 0 {
        a as u64
    } else if a == i64::MIN {
        0x8000_0000_0000_0000u64
    } else {
        (-a) as u64
    };
    let ub: u64 = if b >= 0 {
        b as u64
    } else if b == i64::MIN {
        0x8000_0000_0000_0000u64
    } else {
        (-b) as u64
    };
    let m = ua % ub;
    assert(m < ub);
    if a >= 0 {
        assert(m <= i64::MAX);
        m as i64
    } else {
        assert(m < 0x8000_0000_0000_0000u64);
        -(m as i64)
    }
}

/// Integer result of a binary operator on two exact operands (booleans
/// count as 0 and 1). Overflow of `+ - *` and a negative shift are type
/// errors; a zero divisor of `%` is a division by zero.
pub fn int_binary(op: BinOp, a: i64, b: i64) -> (r: Result<i64, EvalError>)
    requires
        is_int_binop(op),
        op == BinOp::Mod ==> !(a == i64::MIN && b == -1),
    ensures
        match int_binary_spec(op, a, b) {
            Ok(v) => r matches Ok(x) && x == v,
            Err(e) => r matches Err(x) && x.view() == e,
        },
{
    match op {
        BinOp::Add => match a.checked_add(b) {
            Some(v) => Ok(v),
            None => Err(overflow("整数加法溢出")),
        },
        BinOp::Sub => match a.checked_sub(b) {
            Some(v) => Ok(v),
            None => Err(overflow("整数减法溢出")),
        },
        BinOp::Mul => match a.checked_mul(b) {
            Some(v) => Ok(v),
            None => Err(overflow("整数乘法溢出")),
        },
        BinOp::Mod => if b == 0 {
            Err(EvalError::DivisionByZero)
        } else {
            Ok(int_rem(a, b))
        },
        BinOp::BitAnd => Ok(a & b),
        BinOp::BitOr => Ok(a | b),
        BinOp::BitXor => Ok(a ^ b),
        BinOp::ShiftLeft => match checked_shift(b) {
            Ok(s) => Ok(a << s),
            Err(e) => Err(e),
        },
        _ => match checked_shift(b) {
            Ok(s) => Ok(a >> s),
            Err(e) => Err(e),
        },
    }
}

/// Integer result of `-` or `~` on an exact operand; negating the least
/// `i64` is a type error.
pub fn int_unary(op: UnaryOp, a: i64) -> (r: Result<i64, EvalError>)
    requires
        op != UnaryOp::Not,
    ensures
        op == UnaryOp::Neg && a != i64::MIN ==> (r matches Ok(x) && x == -a),
        op == UnaryOp::Neg && a == i64::MIN ==> (r matches Err(e) && e.view()
            == EvalErrorView::TypeError("整数取反溢出"@)),
        op == UnaryOp::BitNot ==> (r matches Ok(x) && x == !a),
{
    match op {
        UnaryOp::Neg => if a == i64::MIN {
            Err(overflow("整数取反溢出"))
        } else {
            Ok(-a)
        },
        _ => Ok(!a),
    }
}

// ------------------------------------------------------------------
//  Exact values
// ------------------------------------------------------------------

/// An exact value of a formula: an integer or a boolean.
#[derive(Debug, Clone, Copy, PartialEq, Eq, Structural)]
pub enum ExactValue {
    Int(i64),
    Bool(bool),
}

impl ExactValue {
    /// Integer meaning: booleans are 1 and 0.
    pub open spec fn int_of(self) -> int {
        match self {
            ExactValue::Int(n) => n as int,
            ExactValue::Bool(b) => if b {
                1
            } else {
                0
            },
        }
    }

    /// The value as an integer operand.
    pub fn as_int(&self) -> (n: i64)
        ensures
            n == self.int_of(),
    {
        match self {
            ExactValue::Int(n) => *n,
            ExactValue::Bool(b) => if *b {
                1
            } else {
                0
            },
        }
    }

    /// Truthiness: a boolean is itself, an integer is true when non-zero.
    pub fn as_bool(&self) -> (b: bool)
        ensures
            b == (self.int_of() != 0),
    {
        match self {
            ExactValue::Int(n) => *n != 0,
            ExactValue::Bool(b) => *b,
        }
    }
}

/// Equality of exact values: a boolean equals the integer 1 or 0 that it
/// stands for.
pub fn exact_eq(l: &ExactValue, r: &ExactValue) -> (b: bool)
    ensures
        b == (l.int_of() == r.int_of()),
{
    match (l, r) {
        (ExactValue::Bool(a), ExactValue::Bool(c)) => *a == *c,
        _ => l.as_int() == r.as_int(),
    }
}

} // verus!
