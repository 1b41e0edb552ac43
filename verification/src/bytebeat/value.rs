use vstd::prelude::*;
use crate::bytebeat::cmd::{BiType, CompType};
use crate::bytebeat::ieee::{
    bits_are_zero, bits_equal, bits_less, bits_to_int, from_int, int_to_bits, is_zero, real_eq,
    real_lt, truncated,
};

verus! {

/// A value of the expression language: a 64-bit integer, or a real number
/// held as the bits of its binary64 encoding. Integers and reals coexist on
/// the stack.
#[derive(Clone, Copy, Debug)]
pub enum Val {
    /// A real number, as its bits
    F(u64),
    /// An integer
    I(i64),
}

impl Val {
    /// The value as an integer: a real number is cut towards zero.
    pub open spec fn as_int(self) -> i64 {
        match self {
            Val::F(x) => truncated(x),
            Val::I(x) => x,
        }
    }

    /// The value as the bits of a real number: an integer becomes the
    /// nearest real.
    pub open spec fn as_real(self) -> u64 {
        match self {
            Val::F(x) => x,
            Val::I(x) => from_int(x),
        }
    }

    /// The value counts as true: it is not the integer 0 and not a real zero.
    pub open spec fn truthy(self) -> bool {
        match self {
            Val::F(x) => !is_zero(x),
            Val::I(x) => x != 0,
        }
    }

    /// The low eight bits of the value as an integer.
    pub open spec fn as_byte(self) -> u8 {
        self.as_int() as u8
    }

    /// 1 for true, 0 for false.
    pub open spec fn flag(b: bool) -> Val {
        if b {
            Val::I(1)
        } else {
            Val::I(0)
        }
    }

    /// The order of two values. A mixed pair is compared as reals.
    pub open spec fn less(self, rhs: Val) -> bool {
        match (self, rhs) {
            (Val::I(l), Val::I(r)) => l < r,
            (Val::F(l), Val::F(r)) => real_lt(l, r),
            (Val::I(l), Val::F(r)) => real_lt(from_int(l), r),
            (Val::F(l), Val::I(r)) => real_lt(l, from_int(r)),
        }
    }

    /// Neither value comes before the other in the order, and both are
    /// numbers.
    pub open spec fn level(self, rhs: Val) -> bool {
        match (self, rhs) {
            (Val::I(l), Val::I(r)) => l == r,
            (Val::F(l), Val::F(r)) => real_eq(l, r),
            (Val::I(l), Val::F(r)) => real_eq(from_int(l), r),
            (Val::F(l), Val::I(r)) => real_eq(l, from_int(r)),
        }
    }

    /// Equality of two values. A mixed pair is equal when it is so both as
    /// reals and as integers.
    pub open spec fn same(self, rhs: Val) -> bool {
        match (self, rhs) {
            (Val::I(l), Val::I(r)) => l == r,
            (Val::F(l), Val::F(r)) => real_eq(l, r),
            (Val::I(l), Val::F(r)) => real_eq(from_int(l), r) && l == truncated(r),
            (Val::F(l), Val::I(r)) => real_eq(l, from_int(r)) && truncated(l) == r,
        }
    }

    /// The outcome of a comparison.
    pub open spec fn compare(op: CompType, a: Val, b: Val) -> bool {
        match op {
            CompType::Lt => a.less(b),
            CompType::Gt => b.less(a),
            CompType::Leq => a.less(b) || a.level(b),
            CompType::Geq => b.less(a) || a.level(b),
            CompType::Eq => a.same(b),
            CompType::Neq => !a.same(b),
        }
    }

    pub fn from_bool(b: bool) -> (val: Val)
        ensures
            val == Val::flag(b),
    {
        if b {
            Val::I(1)
        } else {
            Val::I(0)
        }
    }

    pub fn to_int(self) -> (x: i64)
        ensures
            x == self.as_int(),
    {
        match self {
            Val::F(x) => bits_to_int(x),
            Val::I(x) => x,
        }
    }

    pub fn to_real(self) -> (bits: u64)
        ensures
            bits == self.as_real(),
    {
        match self {
            Val::F(x) => x,
            Val::I(x) => int_to_bits(x),
        }
    }

    pub fn to_bool(self) -> (b: bool)
        ensures
            b == self.truthy(),
    {
        match self {
            Val::F(x) => !bits_are_zero(x),
            Val::I(x) => x != 0,
        }
    }

    pub fn to_byte(self) -> (byte: u8)
        ensures
            byte == self.as_byte(),
    {
        let x: i64 = self.to_int();
        #[verifier::truncate]
        (x as u8)
    }

    /// Whether `self` comes before `rhs`.
    pub fn is_less(self, rhs: Val) -> (b: bool)
        ensures
            b == self.less(rhs),
    {
        match (self, rhs) {
            (Val::I(l), Val::I(r)) => l < r,
            (Val::F(l), Val::F(r)) => bits_less(l, r),
            (Val::I(l), Val::F(r)) => bits_less(int_to_bits(l), r),
            (Val::F(l), Val::I(r)) => bits_less(l, int_to_bits(r)),
        }
    }

    /// Whether the two values stand level in the order.
    pub fn is_level(self, rhs: Val) -> (b: bool)
        ensures
            b == self.level(rhs),
    {
        match (self, rhs) {
            (Val::I(l), Val::I(r)) => l == r,
            (Val::F(l), Val::F(r)) => bits_equal(l, r),
            (Val::I(l), Val::F(r)) => bits_equal(int_to_bits(l), r),
            (Val::F(l), Val::I(r)) => bits_equal(l, int_to_bits(r)),
        }
    }

    /// Whether the two values are equal.
    pub fn is_same(self, rhs: Val) -> (b: bool)
        ensures
            b == self.same(rhs),
    {
        match (self, rhs) {
            (Val::I(l), Val::I(r)) => l == r,
            (Val::F(l), Val::F(r)) => bits_equal(l, r),
            (Val::I(l), Val::F(r)) => bits_equal(int_to_bits(l), r) && l == bits_to_int(r),
            (Val::F(l), Val::I(r)) => bits_equal(l, int_to_bits(r)) && bits_to_int(l) == r,
        }
    }
}

/// The quotient of two integers, rounded towards zero.
pub open spec fn cut_div(a: int, b: int) -> int {
    if a >= 0 {
        if b > 0 {
            a / b
        } else {
            -(a / (-b))
        }
    } else {
        if b > 0 {
            -((-a) / b)
        } else {
            (-a) / (-b)
        }
    }
}

/// The remainder that goes with `cut_div`: it has the sign of `a`.
pub open spec fn cut_rem(a: int, b: int) -> int {
    if a >= 0 {
        if b > 0 {
            a % b
        } else {
            a % (-b)
        }
    } else {
        if b > 0 {
            -((-a) % b)
        } else {
            -((-a) % (-b))
        }
    }
}

/// The number of places by which `b` shifts: `b` modulo 64, from 0 to 63.
pub open spec fn shift_places(b: i64) -> i64 {
    ((b as int) % 64) as i64
}

/// What a binary integer operator computes of `a` and `b`. Sums, differences
/// and products wrap; a division by zero gives 0.
pub open spec fn int_op(op: BiType, a: i64, b: i64) -> i64 {
    match op {
        BiType::Add => a.wrapping_add(b),
        BiType::Sub => a.wrapping_sub(b),
        BiType::Mul => a.wrapping_mul(b),
        BiType::Div => if b == 0 {
            0
        } else if a == i64::MIN && b == -1 {
            i64::MIN
        } else {
            cut_div(a as int, b as int) as i64
        },
        BiType::Mod => if b == 0 || (a == i64::MIN && b == -1) {
            0
        } else {
            cut_rem(a as int, b as int) as i64
        },
        BiType::Shl => a << shift_places(b),
        BiType::Shr => a >> shift_places(b),
        BiType::And => a & b,
        BiType::Orr => a | b,
        BiType::Xor => a ^ b,
    }
}

/// The places by which `b` shifts.
pub fn places(b: i64) -> (s: i64)
    ensures
        s == shift_places(b),
        0 <= s < 64,
{
    match b.checked_rem_euclid(64) {
        Some(s) => s,
        None => 0,
    }
}

/// The quotient as the language has it: 0 for a division by zero, wrapping
/// where the quotient has no place in 64 bits.
pub fn quotient(a: i64, b: i64) -> (q: i64)
    ensures
        q == int_op(BiType::Div, a, b),
{
    if b == 0 {
        0
    } else {
        proof {
            lemma_cut_div_bound(a as int, b as int);
        }
        let r = a.checked_div(b);
        assert(a == i64::MIN && b == -1 ==> r is None);
        assert(!(a == i64::MIN && b == -1) ==> r is Some);
        match r {
            Some(q) => q,
            None => i64::MIN,
        }
    }
}

/// The remainder as the language has it: 0 for a division by zero.
pub fn remainder(a: i64, b: i64) -> (r: i64)
    ensures
        r == int_op(BiType::Mod, a, b),
{
    if b == 0 {
        0
    } else {
        match a.checked_rem(b) {
            Some(r) => r,
            None => 0,
        }
    }
}

/// Applies a binary integer operator.
pub fn apply_int_op(op: BiType, a: i64, b: i64) -> (r: i64)
    ensures
        r == int_op(op, a, b),
{
    match op {
        BiType::Add => a.wrapping_add(b),
        BiType::Sub => a.wrapping_sub(b),
        BiType::Mul => a.wrapping_mul(b),
        BiType::Div => quotient(a, b),
        BiType::Mod => remainder(a, b),
        BiType::Shl => a << places(b),
        BiType::Shr => a >> places(b),
        BiType::And => a & b,
        BiType::Orr => a | b,
        BiType::Xor => a ^ b,
    }
}

/// A quotient rounded towards zero is no larger in magnitude than the
/// dividend.
pub proof fn lemma_cut_div_bound(a: int, b: int)
    requires
        b != 0,
    ensures
        a >= 0 ==> -a <= cut_div(a, b) <= a,
        a < 0 ==> a <= cut_div(a, b) <= -a,
        a < 0 && b < -1 ==> cut_div(a, b) < -a,
        cut_div(a, b) == (if a == 0 {
            0
        } else if a > 0 && b > 0 {
            a / b
        } else if a < 0 && b < 0 {
            ((a * -1) / (b * -1))
        } else if a < 0 {
            ((a * -1) / b) * -1
        } else {
            (a / (b * -1)) * -1
        }),
{
    let x = if a >= 0 { a } else { -a };
    let d = if b > 0 { b } else { -b };
    assert(0 <= x / d <= x) by (nonlinear_arith)
        requires
            x >= 0,
            d > 0,
    ;
    assert(0int / d == 0) by (nonlinear_arith)
        requires
            d > 0,
    ;
    if x > 0 && d > 1 {
        assert(x / d < x) by (nonlinear_arith)
            requires
                x > 0,
                d > 1,
        ;
    }
}

} // verus!
