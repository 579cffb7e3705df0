//! The pure evaluation functions attached to compute cells.
//!
//! A compute cell's function is an arithmetic expression over the ordered
//! list of its dependency values: [`Func::Arg`] reads one of those values by
//! position. Evaluation is total and deterministic; the arithmetic saturates
//! at the `i64` bounds, and an argument position beyond the end of the list
//! reads as zero.

use vstd::prelude::*;

verus! {

/// A pure function from the ordered dependency values of a compute cell to
/// its value.
pub enum Func {
    /// A constant, whatever the arguments are.
    Const(i64),
    /// The value of the argument at this position; zero when the position is
    /// out of range.
    Arg(usize),
    /// The saturating sum of two subexpressions.
    Add(Box<Func>, Box<Func>),
    /// The saturating difference of two subexpressions.
    Sub(Box<Func>, Box<Func>),
    /// The saturating product of two subexpressions.
    Mul(Box<Func>, Box<Func>),
}

/// Clamps an unbounded integer into the `i64` range.
pub open spec fn sat(x: int) -> i64 {
    if x < i64::MIN {
        i64::MIN
    } else if x > i64::MAX {
        i64::MAX
    } else {
        x as i64
    }
}

impl Func {
    /// What evaluating the function over the given argument values means.
    pub open spec fn spec_eval(self, args: Seq<i64>) -> i64
        decreases self,
    {
        match self {
            Func::Const(c) => c,
            Func::Arg(i) => if i < args.len() {
                args[i as int]
            } else {
                0
            },
            Func::Add(a, b) => sat(a.spec_eval(args) + b.spec_eval(args)),
            Func::Sub(a, b) => sat(a.spec_eval(args) - b.spec_eval(args)),
            Func::Mul(a, b) => sat(a.spec_eval(args) * b.spec_eval(args)),
        }
    }

    /// Evaluates the function over the given argument values.
    pub fn eval(&self, args: &Vec<i64>) -> (r: i64)
        ensures
            r == self.spec_eval(args@),
        decreases self,
    {
        match self {
            Func::Const(c) => *c,
            Func::Arg(i) => if *i < args.len() {
                args[*i]
            } else {
                0
            },
            Func::Add(a, b) => sat_add(a.eval(args), b.eval(args)),
            Func::Sub(a, b) => sat_sub(a.eval(args), b.eval(args)),
            Func::Mul(a, b) => sat_mul(a.eval(args), b.eval(args)),
        }
    }
}

/// Saturating addition on `i64`.
fn sat_add(a: i64, b: i64) -> (r: i64)
    ensures
        r == sat(a + b),
{
    let s: i128 = (a as i128) + (b as i128);
    if s < i64::MIN as i128 {
        i64::MIN
    } else if s > i64::MAX as i128 {
        i64::MAX
    } else {
        s as i64
    }
}

/// Saturating subtraction on `i64`.
fn sat_sub(a: i64, b: i64) -> (r: i64)
    ensures
        r == sat(a - b),
{
    let s: i128 = (a as i128) - (b as i128);
    if s < i64::MIN as i128 {
        i64::MIN
    } else if s > i64::MAX as i128 {
        i64::MAX
    } else {
        s as i64
    }
}

/// Saturating multiplication on `i64`.
fn sat_mul(a: i64, b: i64) -> (r: i64)
    ensures
        r == sat(a * b),
{
    let aa: i128 = a as i128;
    let bb: i128 = b as i128;
    proof {
        assert((aa as int) * (bb as int) <= 85070591730234615865843651857942052864
            && (aa as int) * (bb as int) >= -85070591730234615865843651857942052864)
            by (nonlinear_arith)
            requires
                -9223372036854775808 <= aa as int <= 9223372036854775807,
                -9223372036854775808 <= bb as int <= 9223372036854775807,
        ;
    }
    let p: i128 = aa * bb;
    if p < i64::MIN as i128 {
        i64::MIN
    } else if p > i64::MAX as i128 {
        i64::MAX
    } else {
        p as i64
    }
}

} // verus!
