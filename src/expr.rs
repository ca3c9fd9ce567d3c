//! Expression trees over bit vectors: the one description of a logic unit's
//! body that both the simulator evaluates and the Verilog emitter prints.
use crate::bits::{add_mod, modulus, sub_mod, BitVec};
use vstd::prelude::*;

verus! {

/// A binary operator whose result has the width of its operands.
#[derive(Debug, Clone, Copy, PartialEq, Eq, Structural)]
pub enum BinOp {
    Add,
    Sub,
    And,
    Or,
    Xor,
}

/// A comparison, whose result is a single bit.
#[derive(Debug, Clone, Copy, PartialEq, Eq, Structural)]
pub enum CmpOp {
    Eq,
    Lt,
}

/// An expression over the current values of a design's signals.
#[derive(Debug)]
pub enum Expr {
    /// The current value of the signal with this index.
    Sig(usize),
    /// A constant.
    Lit(BitVec),
    /// Bitwise complement.
    Not(Box<Expr>),
    /// A width-preserving binary operation; both operands must have one width.
    Bin(BinOp, Box<Expr>, Box<Expr>),
    /// A comparison of two operands of one width, giving one bit.
    Cmp(CmpOp, Box<Expr>, Box<Expr>),
    /// `Mux(c, a, b)` is `a` when the one-bit `c` is set, else `b`.
    Mux(Box<Expr>, Box<Expr>, Box<Expr>),
}

/// The result of a binary operator on two operands of one width.
pub open spec fn bin_spec(op: BinOp, a: BitVec, b: BitVec) -> BitVec {
    let v: u64 = match op {
        BinOp::Add => add_mod(a.value as nat, b.value as nat, a.width as nat) as u64,
        BinOp::Sub => sub_mod(a.value as nat, b.value as nat, a.width as nat) as u64,
        BinOp::And => a.value & b.value,
        BinOp::Or => a.value | b.value,
        BinOp::Xor => a.value ^ b.value,
    };
    BitVec { width: a.width, value: v }
}

/// One bit holding `b`.
pub open spec fn bit_of(b: bool) -> BitVec {
    BitVec { width: 1, value: if b { 1 } else { 0 } }
}

/// The result of a comparison of two operands of one width.
pub open spec fn cmp_spec(op: CmpOp, a: BitVec, b: BitVec) -> BitVec {
    match op {
        CmpOp::Eq => bit_of(a.value == b.value),
        CmpOp::Lt => bit_of(a.value < b.value),
    }
}

/// The value of `e` over the signal values `vals`; `None` where a signal index
/// is out of range, a constant is malformed, or operand widths disagree.
pub open spec fn eval(e: Expr, vals: Seq<BitVec>) -> Option<BitVec>
    decreases e,
{
    match e {
        Expr::Sig(i) => if i < vals.len() && vals[i as int].wf() {
            Some(vals[i as int])
        } else {
            None
        },
        Expr::Lit(v) => if v.wf() {
            Some(v)
        } else {
            None
        },
        Expr::Not(a) => match eval(*a, vals) {
            Some(x) => Some(BitVec { width: x.width, value: (modulus(x.width as nat) - 1 - x.value) as u64 }),
            None => None,
        },
        Expr::Bin(op, a, b) => match (eval(*a, vals), eval(*b, vals)) {
            (Some(x), Some(y)) => if x.width == y.width {
                Some(bin_spec(op, x, y))
            } else {
                None
            },
            _ => None,
        },
        Expr::Cmp(op, a, b) => match (eval(*a, vals), eval(*b, vals)) {
            (Some(x), Some(y)) => if x.width == y.width {
                Some(cmp_spec(op, x, y))
            } else {
                None
            },
            _ => None,
        },
        Expr::Mux(c, a, b) => match (eval(*c, vals), eval(*a, vals), eval(*b, vals)) {
            (Some(z), Some(x), Some(y)) => if z.width == 1 && x.width == y.width {
                if z.value == 1 {
                    Some(x)
                } else {
                    Some(y)
                }
            } else {
                None
            },
            _ => None,
        },
    }
}

/// The width of `e` given the signals' widths; `None` where it is ill-formed.
pub open spec fn width_of(e: Expr, widths: Seq<u32>) -> Option<u32>
    decreases e,
{
    match e {
        Expr::Sig(i) => if i < widths.len() {
            Some(widths[i as int])
        } else {
            None
        },
        Expr::Lit(v) => if v.wf() {
            Some(v.width)
        } else {
            None
        },
        Expr::Not(a) => width_of(*a, widths),
        Expr::Bin(_, a, b) => match (width_of(*a, widths), width_of(*b, widths)) {
            (Some(x), Some(y)) => if x == y {
                Some(x)
            } else {
                None
            },
            _ => None,
        },
        Expr::Cmp(_, a, b) => match (width_of(*a, widths), width_of(*b, widths)) {
            (Some(x), Some(y)) => if x == y {
                Some(1u32)
            } else {
                None
            },
            _ => None,
        },
        Expr::Mux(c, a, b) => match (width_of(*c, widths), width_of(*a, widths), width_of(*b, widths)) {
            (Some(z), Some(x), Some(y)) => if z == 1 && x == y {
                Some(x)
            } else {
                None
            },
            _ => None,
        },
    }
}

fn bit_value(b: bool) -> (r: BitVec)
    ensures
        r == bit_of(b),
        r.wf(),
{
    proof {
        crate::bits::lemma_modulus_bounds(1);
    }
    BitVec { width: 1, value: if b { 1 } else { 0 } }
}

/// Evaluates `e` over the signal values `vals`.
pub fn eval_expr(e: &Expr, vals: &Vec<BitVec>) -> (r: Option<BitVec>)
    ensures
        r == eval(*e, vals@),
        r is Some ==> r->Some_0.wf(),
    decreases e,
{
    match e {
        Expr::Sig(i) => {
            if *i < vals.len() && vals[*i].wf_check() {
                Some(vals[*i])
            } else {
                None
            }
        },
        Expr::Lit(v) => {
            if v.wf_check() {
                Some(*v)
            } else {
                None
            }
        },
        Expr::Not(a) => {
            match eval_expr(a, vals) {
                Some(x) => Some(x.not()),
                None => None,
            }
        },
        Expr::Bin(op, a, b) => {
            let x = match eval_expr(a, vals) {
                Some(x) => x,
                None => return None,
            };
            let y = match eval_expr(b, vals) {
                Some(y) => y,
                None => return None,
            };
            let r = match op {
                BinOp::Add => x.add(&y),
                BinOp::Sub => x.sub(&y),
                BinOp::And => x.and(&y),
                BinOp::Or => x.or(&y),
                BinOp::Xor => x.xor(&y),
            };
            match r {
                Ok(v) => Some(v),
                Err(_) => None,
            }
        },
        Expr::Cmp(op, a, b) => {
            let x = match eval_expr(a, vals) {
                Some(x) => x,
                None => return None,
            };
            let y = match eval_expr(b, vals) {
                Some(y) => y,
                None => return None,
            };
            let r = match op {
                CmpOp::Eq => x.eq(&y),
                CmpOp::Lt => x.lt(&y),
            };
            match r {
                Ok(t) => Some(bit_value(t)),
                Err(_) => None,
            }
        },
        Expr::Mux(c, a, b) => {
            let z = match eval_expr(c, vals) {
                Some(z) => z,
                None => return None,
            };
            let x = match eval_expr(a, vals) {
                Some(x) => x,
                None => return None,
            };
            let y = match eval_expr(b, vals) {
                Some(y) => y,
                None => return None,
            };
            if z.width == 1 && x.width == y.width {
                if z.value == 1 {
                    Some(x)
                } else {
                    Some(y)
                }
            } else {
                None
            }
        },
    }
}

} // verus!
