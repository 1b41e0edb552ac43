//! Real numbers as the 64 bits of their IEEE-754 binary64 encoding: one sign
//! bit, eleven exponent bits, fifty-two fraction bits. What this library asks
//! of such a number without computing with it is read from the bits here.

use vstd::prelude::*;

verus! {

/// The sign bit.
pub const SIGN_BIT: u64 = 0x8000_0000_0000_0000;

/// The encoding of positive infinity: every larger magnitude is no number.
pub const INFINITY_BITS: u64 = 0x7ff0_0000_0000_0000;

/// Two to the power 52: the weight of the exponent's lowest bit, and the
/// leading bit that a normal number's fraction leaves out.
pub const HIDDEN_BIT: u64 = 0x0010_0000_0000_0000;

/// The fraction bits.
pub const FRACTION_MASK: u64 = 0x000f_ffff_ffff_ffff;

/// The encoding without its sign bit.
pub open spec fn magnitude(bits: u64) -> u64 {
    if bits >= SIGN_BIT {
        (bits - SIGN_BIT) as u64
    } else {
        bits
    }
}

/// The encoding is of no number.
pub open spec fn is_nan(bits: u64) -> bool {
    magnitude(bits) > INFINITY_BITS
}

/// The encoding is of zero, positive or negative.
pub open spec fn is_zero(bits: u64) -> bool {
    magnitude(bits) == 0
}

/// An integer that orders the encodings of numbers as the numbers
/// themselves are ordered; both zeros have the key 0.
pub open spec fn order_key(bits: u64) -> int {
    if bits >= SIGN_BIT {
        -(magnitude(bits) as int)
    } else {
        bits as int
    }
}

/// The first number is less than the second. Nothing is less than, or has
/// less than it, what is no number.
pub open spec fn real_lt(a: u64, b: u64) -> bool {
    !is_nan(a) && !is_nan(b) && order_key(a) < order_key(b)
}

/// The two numbers are equal. What is no number equals nothing.
pub open spec fn real_eq(a: u64, b: u64) -> bool {
    !is_nan(a) && !is_nan(b) && order_key(a) == order_key(b)
}

/// The number cut to its integer part, towards zero; the nearest bound of
/// the 64-bit integers where it lies beyond them, and 0 for what is no
/// number.
pub open spec fn truncated(bits: u64) -> i64 {
    let mag = magnitude(bits);
    let exponent = mag / HIDDEN_BIT;
    let significand = (mag % HIDDEN_BIT + HIDDEN_BIT) as u64;
    if mag > INFINITY_BITS || exponent < 1023 {
        0
    } else if exponent >= 1086 {
        if bits >= SIGN_BIT {
            i64::MIN
        } else {
            i64::MAX
        }
    } else {
        let whole: u64 = if exponent >= 1075 {
            significand << ((exponent - 1075) as u64)
        } else {
            significand >> ((1075 - exponent) as u64)
        };
        if bits >= SIGN_BIT {
            (-(whole as int)) as i64
        } else {
            whole as i64
        }
    }
}

/// The position of the highest bit set in `mag`, 0 for 0.
pub open spec fn top_bit(mag: u64) -> nat
    decreases mag,
{
    if mag <= 1 {
        0
    } else {
        1 + top_bit(mag / 2)
    }
}

/// The fraction bits and the carry of a magnitude with its highest bit at
/// `top`: exact up to 53 significant bits, beyond that rounded to the
/// nearest, a tie to the even one. The carry says that rounding reached the
/// next power of two.
pub open spec fn rounded_fraction(mag: u64, top: u64) -> (u64, bool) {
    if top <= 52 {
        ((mag << ((52 - top) as u64)) & FRACTION_MASK, false)
    } else {
        let shift = (top - 52) as u64;
        let kept = mag >> shift;
        let lost = mag & (((1u64 << shift) - 1) as u64);
        let half = 1u64 << ((shift - 1) as u64);
        if lost > half || (lost == half && kept & 1 == 1) {
            if kept & FRACTION_MASK == FRACTION_MASK {
                (0, true)
            } else {
                (((kept & FRACTION_MASK) + 1) as u64, false)
            }
        } else {
            (kept & FRACTION_MASK, false)
        }
    }
}

/// The encoding of the number nearest to the integer `x`, a tie going to the
/// one with an even fraction.
pub open spec fn from_int(x: i64) -> u64 {
    if x == 0 {
        0
    } else {
        let sign: u64 = if x < 0 { SIGN_BIT } else { 0 };
        let mag: u64 = if x < 0 { (-(x as int)) as u64 } else { x as u64 };
        let top = top_bit(mag) as u64;
        let (fraction, carry) = rounded_fraction(mag, top);
        let exponent = if carry { 1024 + top } else { 1023 + top };
        (sign + exponent * HIDDEN_BIT + fraction) as u64
    }
}

/// A magnitude that a shift by `limit` places brings down to 0 or 1 has its
/// highest bit at `limit` or below.
pub proof fn lemma_top_bit_bound(mag: u64, limit: u64)
    requires
        limit <= 63,
        mag >> limit <= 1,
    ensures
        top_bit(mag) <= limit,
    decreases mag,
{
    if mag > 1 {
        if limit == 0 {
            assert(mag >> 0u64 == mag) by (bit_vector);
        } else {
            let rest = (limit - 1) as u64;
            assert((mag / 2) >> rest == mag >> limit) by (bit_vector)
                requires
                    1 <= limit <= 63,
                    rest == limit - 1,
            ;
            lemma_top_bit_bound(mag / 2, rest);
        }
    }
}

/// Shifting a magnitude that is not zero down by the position of its
/// highest bit leaves 1.
pub proof fn lemma_top_bit_is_top(mag: u64)
    requires
        mag >= 1,
    ensures
        top_bit(mag) <= 63,
        mag >> (top_bit(mag) as u64) == 1,
    decreases mag,
{
    assert(mag >> 63u64 <= 1) by (bit_vector);
    lemma_top_bit_bound(mag, 63);
    if mag > 1 {
        let half = mag / 2;
        lemma_top_bit_is_top(half);
        assert(half >> 63u64 == 0) by (bit_vector)
            requires
                half == mag / 2,
        ;
        if top_bit(half) == 63 {
            assert(false);
        }
        let below = top_bit(half) as u64;
        let top = (below + 1) as u64;
        assert(mag >> top == half >> below) by (bit_vector)
            requires
                half == mag / 2,
                below < 63,
                top == below + 1,
        ;
    } else {
        assert(1u64 >> 0u64 == 1) by (bit_vector);
    }
}

/// An integer of at most 53 bits is a real number: made a real and cut
/// back to an integer, it is itself.
pub proof fn lemma_small_int_is_exact(x: i64)
    requires
        -0x0020_0000_0000_0000 < x < 0x0020_0000_0000_0000,
    ensures
        truncated(from_int(x)) == x,
{
    if x != 0 {
        let mag: u64 = if x < 0 { (-x) as u64 } else { x as u64 };
        lemma_top_bit_is_top(mag);
        let top = top_bit(mag) as u64;
        assert(top <= 52) by (bit_vector)
            requires
                mag < 0x0020_0000_0000_0000u64,
                mag >> top == 1,
                top <= 63,
        ;
        let up = (52 - top) as u64;
        let shifted = mag << up;
        let fraction = shifted & FRACTION_MASK;
        assert(fraction + 0x0010_0000_0000_0000 == shifted && fraction < 0x0010_0000_0000_0000
            && shifted >> up == mag) by (bit_vector)
            requires
                mag >> top == 1,
                top <= 52,
                up == 52 - top,
                shifted == mag << up,
                fraction == shifted & 0x000f_ffff_ffff_ffffu64,
        ;
        let exponent = (1023 + top) as u64;
        let body = (exponent * HIDDEN_BIT + fraction) as u64;
        assert(body / HIDDEN_BIT == exponent && body % HIDDEN_BIT == fraction);
        assert(shifted << 0u64 == shifted) by (bit_vector);
        let bits = from_int(x);
        assert(rounded_fraction(mag, top) == (fraction, false));
        assert(bits == if x < 0 { (SIGN_BIT + body) as u64 } else { body });
        assert(magnitude(bits) == body);
        if top == 52 {
            assert(mag << 0u64 == mag) by (bit_vector);
        }
        assert(truncated(bits) == x);
    }
}

/// The real nearest to an integer is a number, and it is zero for the
/// integer 0 only.
pub proof fn lemma_int_is_a_number(x: i64)
    ensures
        !is_nan(from_int(x)),
        is_zero(from_int(x)) <==> x == 0,
{
    if x != 0 {
        let mag: u64 = if x < 0 { (-(x as int)) as u64 } else { x as u64 };
        lemma_top_bit_is_top(mag);
        let top = top_bit(mag) as u64;
        let (fraction, carry) = rounded_fraction(mag, top);
        let low = mag << ((52 - top) as u64);
        let high = mag >> ((top - 52) as u64);
        assert(low & FRACTION_MASK <= FRACTION_MASK) by (bit_vector);
        assert(high & FRACTION_MASK <= FRACTION_MASK) by (bit_vector);
        assert(fraction <= FRACTION_MASK);
    }
}

/// Whether the encoding is of zero.
pub fn bits_are_zero(bits: u64) -> (zero: bool)
    ensures
        zero == is_zero(bits),
{
    bits == 0 || bits == SIGN_BIT
}

/// Whether the encoding is of no number.
pub fn bits_are_nan(bits: u64) -> (nan: bool)
    ensures
        nan == is_nan(bits),
{
    let mag = if bits >= SIGN_BIT { bits - SIGN_BIT } else { bits };
    mag > INFINITY_BITS
}

/// Whether the first number is less than the second.
pub fn bits_less(a: u64, b: u64) -> (less: bool)
    ensures
        less == real_lt(a, b),
{
    if bits_are_nan(a) || bits_are_nan(b) {
        false
    } else if a >= SIGN_BIT {
        if b >= SIGN_BIT {
            // both negative: the larger magnitude is the lesser number
            a > b
        } else {
            // negative against non-negative: less unless both are zero
            a > SIGN_BIT || b > 0
        }
    } else {
        b < SIGN_BIT && a < b
    }
}

/// Whether the two numbers are equal.
pub fn bits_equal(a: u64, b: u64) -> (equal: bool)
    ensures
        equal == real_eq(a, b),
{
    if bits_are_nan(a) || bits_are_nan(b) {
        false
    } else {
        a == b || (bits_are_zero(a) && bits_are_zero(b))
    }
}

/// The number cut to an integer: `truncated`.
pub fn bits_to_int(bits: u64) -> (whole: i64)
    ensures
        whole == truncated(bits),
{
    let negative = bits >= SIGN_BIT;
    let mag = if negative { bits - SIGN_BIT } else { bits };
    let exponent = mag / HIDDEN_BIT;
    let significand = mag % HIDDEN_BIT + HIDDEN_BIT;
    if mag > INFINITY_BITS || exponent < 1023 {
        0
    } else if exponent >= 1086 {
        if negative {
            i64::MIN
        } else {
            i64::MAX
        }
    } else {
        let whole: u64 = if exponent >= 1075 {
            let shift = exponent - 1075;
            assert(significand << shift < 0x8000_0000_0000_0000u64) by (bit_vector)
                requires
                    significand < 0x0020_0000_0000_0000u64,
                    shift <= 10,
            ;
            significand << shift
        } else {
            let shift = 1075 - exponent;
            significand >> shift
        };
        if negative {
            -(whole as i64)
        } else {
            whole as i64
        }
    }
}

/// The position of the highest bit set in `mag`.
pub fn highest_bit(mag: u64) -> (top: u64)
    ensures
        top == top_bit(mag),
        top <= 63,
{
    let mut rest = mag;
    let mut top: u64 = 0;
    proof {
        assert(mag >> 63u64 <= 1) by (bit_vector);
        lemma_top_bit_bound(mag, 63);
    }
    while rest > 1
        invariant
            top + top_bit(rest) == top_bit(mag),
            top_bit(mag) <= 63,
        decreases rest,
    {
        rest = rest / 2;
        top = top + 1;
    }
    top
}

/// The encoding of the number nearest to `x`: `from_int`.
pub fn int_to_bits(x: i64) -> (bits: u64)
    ensures
        bits == from_int(x),
{
    if x == 0 {
        return 0;
    }
    let sign: u64 = if x < 0 { SIGN_BIT } else { 0 };
    let mag: u64 = if x == i64::MIN {
        SIGN_BIT
    } else if x < 0 {
        (-x) as u64
    } else {
        x as u64
    };
    let top = highest_bit(mag);
    let mut carry = false;
    let fraction: u64;
    if top <= 52 {
        fraction = (mag << (52 - top)) & FRACTION_MASK;
    } else {
        let shift = top - 52;
        let kept = mag >> shift;
        assert((1u64 << shift) >= 1) by (bit_vector)
            requires
                shift <= 11,
        ;
        let lost = mag & ((1u64 << shift) - 1);
        let half = 1u64 << (shift - 1);
        if lost > half || (lost == half && kept & 1 == 1) {
            if kept & FRACTION_MASK == FRACTION_MASK {
                fraction = 0;
                carry = true;
            } else {
                assert(kept & FRACTION_MASK <= FRACTION_MASK) by (bit_vector);
                fraction = (kept & FRACTION_MASK) + 1;
            }
        } else {
            fraction = kept & FRACTION_MASK;
        }
    }
    assert(fraction <= FRACTION_MASK) by {
        let shifted = mag << ((52 - top) as u64);
        assert(shifted & FRACTION_MASK <= FRACTION_MASK) by (bit_vector);
        let kept = mag >> ((top - 52) as u64);
        assert(kept & FRACTION_MASK <= FRACTION_MASK) by (bit_vector);
    }
    let exponent: u64 = if carry { 1024 + top } else { 1023 + top };
    sign + exponent * HIDDEN_BIT + fraction
}

} // verus!
