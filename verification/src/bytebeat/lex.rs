//! Splitting a text into words, and the integers that a word can write.

use vstd::prelude::*;
use vstd::std_specs::iter::IteratorSpec;

verus! {

broadcast use vstd::string::group_string_axioms;

/// The characters that separate words: those that Unicode calls white space.
pub open spec fn is_space(c: char) -> bool {
    ||| ('\u{9}' <= c && c <= '\u{d}')
    ||| c == ' '
    ||| c == '\u{85}'
    ||| c == '\u{a0}'
    ||| c == '\u{1680}'
    ||| ('\u{2000}' <= c && c <= '\u{200a}')
    ||| c == '\u{2028}'
    ||| c == '\u{2029}'
    ||| c == '\u{202f}'
    ||| c == '\u{205f}'
    ||| c == '\u{3000}'
}

/// No character of `word` separates words.
pub open spec fn spaceless(word: Seq<char>) -> bool {
    forall|i: int| 0 <= i < word.len() ==> !is_space(#[trigger] word[i])
}

/// The words of a text: its longest stretches without white space, in their
/// order.
pub open spec fn words(text: Seq<char>) -> Seq<Seq<char>>
    decreases text.len(),
{
    if text.len() == 0 {
        Seq::empty()
    } else {
        let before = words(text.drop_last());
        if is_space(text.last()) {
            before
        } else if text.len() >= 2 && !is_space(text[text.len() - 2]) {
            before.drop_last().push(before.last().push(text.last()))
        } else {
            before.push(seq![text.last()])
        }
    }
}

/// The value of a digit: of a decimal one, and where `hex` is set also of
/// the letters from a to f, small or capital.
pub open spec fn digit_of(c: char, hex: bool) -> Option<int> {
    if '0' <= c && c <= '9' {
        Some(c as int - '0' as int)
    } else if hex && 'a' <= c && c <= 'f' {
        Some(c as int - 'a' as int + 10)
    } else if hex && 'A' <= c && c <= 'F' {
        Some(c as int - 'A' as int + 10)
    } else {
        None
    }
}

/// Every character of `s` is a digit.
pub open spec fn all_digits(s: Seq<char>, hex: bool) -> bool {
    forall|i: int| 0 <= i < s.len() ==> (#[trigger] digit_of(s[i], hex)) is Some
}

/// The number that the digits of `s` write, in base 16 where `hex` is set
/// and in base 10 where not.
pub open spec fn number(s: Seq<char>, hex: bool) -> int
    decreases s.len(),
{
    if s.len() == 0 {
        0
    } else {
        let d = match digit_of(s.last(), hex) {
            Some(d) => d,
            None => 0,
        };
        if hex {
            number(s.drop_last(), hex) * 16 + d
        } else {
            number(s.drop_last(), hex) * 10 + d
        }
    }
}

/// The integer that `s` writes: an optional sign, `+` or, where `signed` is
/// set, `-`, and then at least one digit. `None` where `s` has another form.
pub open spec fn integer(s: Seq<char>, hex: bool, signed: bool) -> Option<int> {
    let negative = signed && s.len() > 0 && s[0] == '-';
    let body = if s.len() > 0 && (s[0] == '+' || negative) {
        s.subrange(1, s.len() as int)
    } else {
        s
    };
    if body.len() > 0 && all_digits(body, hex) {
        Some(
            if negative {
                -number(body, hex)
            } else {
                number(body, hex)
            },
        )
    } else {
        None
    }
}

/// The integer that `s` writes, where it lies from `low` to `high`.
pub open spec fn integer_within(
    s: Seq<char>,
    hex: bool,
    signed: bool,
    low: int,
    high: int,
) -> Option<int> {
    match integer(s, hex, signed) {
        Some(v) => if low <= v <= high {
            Some(v)
        } else {
            None
        },
        None => None,
    }
}

/// The number that digits write is not negative, and no prefix of them
/// writes a larger one.
pub proof fn lemma_number_grows(s: Seq<char>, hex: bool, k: int)
    requires
        0 <= k <= s.len(),
        all_digits(s, hex),
    ensures
        0 <= number(s.take(k), hex) <= number(s, hex),
    decreases s.len() - k,
{
    lemma_number_nonnegative(s.take(k), hex);
    if k < s.len() {
        lemma_number_grows(s, hex, k + 1);
        assert(s.take(k + 1).drop_last() == s.take(k));
    } else {
        assert(s.take(k) == s);
    }
}

/// The number that characters write is not negative.
pub proof fn lemma_number_nonnegative(s: Seq<char>, hex: bool)
    ensures
        0 <= number(s, hex),
    decreases s.len(),
{
    if s.len() > 0 {
        lemma_number_nonnegative(s.drop_last(), hex);
    }
}

/// Whether `c` separates words.
pub fn is_whitespace(c: char) -> (space: bool)
    ensures
        space == is_space(c),
{
    ('\u{9}' <= c && c <= '\u{d}') || c == ' ' || c == '\u{85}' || c == '\u{a0}' || c
        == '\u{1680}' || ('\u{2000}' <= c && c <= '\u{200a}') || c == '\u{2028}' || c
        == '\u{2029}' || c == '\u{202f}' || c == '\u{205f}' || c == '\u{3000}'
}

/// The characters of a text.
pub fn chars_of(text: &str) -> (chars: Vec<char>)
    ensures
        chars@ == text@,
{
    let mut chars: Vec<char> = Vec::new();
    let mut rest = text.chars();
    loop
        invariant
            chars@ + rest.remaining() == text@,
            rest.decrease() is Some,
        ensures
            chars@ == text@,
        decreases rest.decrease()->0,
    {
        match rest.next() {
            Some(c) => {
                chars.push(c);
            },
            None => {
                break ;
            },
        }
    }
    chars
}

/// The words of `chars`, each as the place where it starts and the place
/// behind its end.
pub fn split_words(chars: &Vec<char>) -> (places: Vec<(usize, usize)>)
    ensures
        places.len() == words(chars@).len(),
        forall|k: int|
            0 <= k < places.len() ==> {
                &&& (#[trigger] places[k]).0 < places[k].1 <= chars.len()
                &&& chars@.subrange(places[k].0 as int, places[k].1 as int) == words(chars@)[k]
            },
{
    let mut places: Vec<(usize, usize)> = Vec::new();
    let mut start: usize = 0;
    let mut inside = false;
    let mut i: usize = 0;
    while i < chars.len()
        invariant
            i <= chars.len(),
            inside ==> start < i && !is_space(chars@[i - 1]),
            !inside ==> i == 0 || is_space(chars@[i - 1]),
            words(chars@.take(i as int)).len() == places.len() + if inside {
                1int
            } else {
                0int
            },
            inside ==> words(chars@.take(i as int)).last() == chars@.subrange(
                start as int,
                i as int,
            ),
            forall|k: int|
                0 <= k < places.len() ==> {
                    &&& (#[trigger] places[k]).0 < places[k].1 <= i
                    &&& chars@.subrange(places[k].0 as int, places[k].1 as int) == words(
                        chars@.take(i as int),
                    )[k]
                },
        decreases chars.len() - i,
    {
        let ghost seen = chars@.take(i as int);
        let ghost next = chars@.take(i + 1);
        let c = chars[i];
        proof {
            assert(next.drop_last() == seen);
        }
        if is_whitespace(c) {
            if inside {
                places.push((start, i));
                inside = false;
            }
        } else if !inside {
            start = i;
            inside = true;
        }
        i += 1;
    }
    assert(chars@.take(i as int) == chars@);
    if inside {
        places.push((start, i));
    }
    places
}

/// The value of a digit: `digit_of`.
pub fn digit(c: char, hex: bool) -> (d: Option<u8>)
    ensures
        match d {
            Some(d) => digit_of(c, hex) == Some(d as int) && d < 16 && (!hex ==> d < 10),
            None => digit_of(c, hex) is None,
        },
{
    if '0' <= c && c <= '9' {
        Some((c as u32 - '0' as u32) as u8)
    } else if hex && 'a' <= c && c <= 'f' {
        Some((c as u32 - 'a' as u32 + 10) as u8)
    } else if hex && 'A' <= c && c <= 'F' {
        Some((c as u32 - 'A' as u32 + 10) as u8)
    } else {
        None
    }
}

/// The number that the digits `s` write, where every character of `s` is a
/// digit and the number is at most `limit`.
pub fn read_number(s: &[char], hex: bool, limit: u64) -> (n: Option<u64>)
    ensures
        match n {
            Some(n) => all_digits(s@, hex) && n == number(s@, hex) && n <= limit,
            None => !all_digits(s@, hex) || number(s@, hex) > limit,
        },
{
    let mut n: u64 = 0;
    let mut i: usize = 0;
    while i < s.len()
        invariant
            i <= s.len(),
            all_digits(s@.take(i as int), hex),
            n == number(s@.take(i as int), hex),
            n <= limit,
        decreases s.len() - i,
    {
        let ghost next = s@.take(i + 1);
        assert(next.drop_last() == s@.take(i as int));
        let d = match digit(s[i], hex) {
            Some(d) => d,
            None => {
                return None;
            },
        };
        let base: u64 = if hex { 16 } else { 10 };
        let grown = match n.checked_mul(base) {
            Some(m) => m.checked_add(d as u64),
            None => None,
        };
        match grown {
            Some(m) if m <= limit => {
                n = m;
            },
            _ => {
                proof {
                    if all_digits(s@, hex) {
                        lemma_number_grows(s@, hex, i + 1);
                    }
                }
                return None;
            },
        }
        i += 1;
    }
    assert(s@.take(i as int) == s@);
    Some(n)
}

/// The signed 64-bit integer that `s` writes: `integer_within` the bounds of
/// such integers.
pub fn read_i64(s: &[char], hex: bool) -> (n: Option<i64>)
    ensures
        match n {
            Some(n) => integer_within(s@, hex, true, i64::MIN as int, i64::MAX as int) == Some(
                n as int,
            ),
            None => integer_within(s@, hex, true, i64::MIN as int, i64::MAX as int) is None,
        },
{
    let negative = s.len() > 0 && s[0] == '-';
    let signed = s.len() > 0 && (s[0] == '+' || negative);
    let body = if signed { vstd::slice::slice_subrange(s, 1, s.len()) } else { s };
    if body.len() == 0 {
        return None;
    }
    if negative {
        match read_number(body, hex, 0x8000_0000_0000_0000) {
            Some(n) => {
                if n == 0x8000_0000_0000_0000 {
                    Some(i64::MIN)
                } else {
                    Some(-(n as i64))
                }
            },
            None => None,
        }
    } else {
        match read_number(body, hex, 0x7fff_ffff_ffff_ffff) {
            Some(n) => Some(n as i64),
            None => None,
        }
    }
}

/// The size that `s` writes: `integer_within` the bounds of sizes, with no
/// negative sign.
pub fn read_usize(s: &[char]) -> (n: Option<usize>)
    ensures
        match n {
            Some(n) => integer_within(s@, false, false, 0, usize::MAX as int) == Some(n as int),
            None => integer_within(s@, false, false, 0, usize::MAX as int) is None,
        },
{
    let signed = s.len() > 0 && s[0] == '+';
    let body = if signed { vstd::slice::slice_subrange(s, 1, s.len()) } else { s };
    if body.len() == 0 {
        return None;
    }
    proof {
        lemma_number_nonnegative(body@, false);
    }
    match read_number(body, false, usize::MAX as u64) {
        Some(n) => Some(n as usize),
        None => None,
    }
}

} // verus!
