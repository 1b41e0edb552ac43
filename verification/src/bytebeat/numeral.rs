//! Integers as texts: their digits in base 10 and in base 16.

use vstd::prelude::*;
use vstd::string::StringExecFns;
use crate::text::push_char;

verus! {

/// The character of a digit from 0 to 15, the letters capital.
pub open spec fn digit_char(d: int) -> char {
    if d == 0 {
        '0'
    } else if d == 1 {
        '1'
    } else if d == 2 {
        '2'
    } else if d == 3 {
        '3'
    } else if d == 4 {
        '4'
    } else if d == 5 {
        '5'
    } else if d == 6 {
        '6'
    } else if d == 7 {
        '7'
    } else if d == 8 {
        '8'
    } else if d == 9 {
        '9'
    } else if d == 10 {
        'A'
    } else if d == 11 {
        'B'
    } else if d == 12 {
        'C'
    } else if d == 13 {
        'D'
    } else if d == 14 {
        'E'
    } else {
        'F'
    }
}

/// The digits of `n`, without leading zeros, in base 16 where `hex` is set
/// and in base 10 where not.
pub open spec fn numeral(n: nat, hex: bool) -> Seq<char>
    decreases n,
{
    if hex {
        if n < 16 {
            seq![digit_char(n as int)]
        } else {
            numeral(n / 16, hex).push(digit_char(n as int % 16))
        }
    } else {
        if n < 10 {
            seq![digit_char(n as int)]
        } else {
            numeral(n / 10, hex).push(digit_char(n as int % 10))
        }
    }
}

/// The decimal digits of `v`, behind a minus sign where it is negative.
pub open spec fn signed_numeral(v: int) -> Seq<char> {
    if v < 0 {
        seq!['-'] + numeral((-v) as nat, false)
    } else {
        numeral(v as nat, false)
    }
}

/// The character of a digit: `digit_char`.
pub fn digit_glyph(d: u8) -> (c: char)
    requires
        d < 16,
    ensures
        c == digit_char(d as int),
{
    match d {
        0 => '0',
        1 => '1',
        2 => '2',
        3 => '3',
        4 => '4',
        5 => '5',
        6 => '6',
        7 => '7',
        8 => '8',
        9 => '9',
        10 => 'A',
        11 => 'B',
        12 => 'C',
        13 => 'D',
        14 => 'E',
        _ => 'F',
    }
}

/// Appends the digits of `n`: `numeral`.
pub fn push_numeral(out: &mut String, n: u64, hex: bool)
    ensures
        final(out)@ == old(out)@ + numeral(n as nat, hex),
    decreases n,
{
    let base: u64 = if hex { 16 } else { 10 };
    if n >= base {
        push_numeral(out, n / base, hex);
    }
    push_char(out, digit_glyph((n % base) as u8));
}

/// Appends the decimal digits of `v`, behind a minus sign where it is
/// negative: `signed_numeral`.
pub fn push_signed(out: &mut String, v: i64)
    ensures
        final(out)@ == old(out)@ + signed_numeral(v as int),
{
    if v < 0 {
        push_char(out, '-');
        let magnitude: u64 = if v == i64::MIN {
            0x8000_0000_0000_0000
        } else {
            (-v) as u64
        };
        push_numeral(out, magnitude, false);
    } else {
        push_numeral(out, v as u64, false);
    }
}

/// Appends the characters of `word`.
pub fn push_word(out: &mut String, word: &str)
    ensures
        final(out)@ == old(out)@ + word@,
{
    out.append(word);
}

} // verus!
