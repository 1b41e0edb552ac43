use vstd::prelude::*;
use vstd::slice::slice_subrange;
use vstd::string::StrSliceExecFns;
use crate::bytebeat::cmd::{
    BiFloatType, BiType, Cmd, CmdView, CompType, LiteralType, TrigType, VarType,
};
use crate::bytebeat::lex::{
    chars_of, integer_within, read_i64, read_usize, split_words, words,
};
use crate::bytebeat::numeral::{numeral, push_numeral, push_word};
use crate::text::string_of;

verus! {

/// Why a text is no list of commands, with the word at fault and its place
/// among the words.
#[derive(Debug, PartialEq, Eq)]
pub enum ParseError<'a> {
    BadArr(&'a str, usize),
    UnknownToken(&'a str, usize),
}

impl<'a> ParseError<'a> {
    /// The text of the error.
    pub open spec fn text(self) -> Seq<char> {
        match self {
            ParseError::BadArr(token, index) => "Bad Array op: "@ + token@ + ", index: "@
                + numeral(index as nat, false),
            ParseError::UnknownToken(token, index) => "Unknown Token: "@ + token@ + ", index: "@
                + numeral(index as nat, false),
        }
    }

    /// The error as a text for a reader: `text`.
    pub fn message(&self) -> (message: String)
        ensures
            message@ == self.text(),
    {
        let mut out = String::new();
        match self {
            ParseError::BadArr(token, index) => {
                push_word(&mut out, "Bad Array op: ");
                push_word(&mut out, token);
                push_word(&mut out, ", index: ");
                push_numeral(&mut out, *index as u64, false);
            },
            ParseError::UnknownToken(token, index) => {
                push_word(&mut out, "Unknown Token: ");
                push_word(&mut out, token);
                push_word(&mut out, ", index: ");
                push_numeral(&mut out, *index as u64, false);
            },
        }
        out
    }
}

/// Why a word is no command: it opens an array without a size, or it is
/// nothing that the language knows.
#[derive(Debug, Copy, Clone, PartialEq, Eq, Structural)]
pub enum Fault {
    BadArr,
    UnknownToken,
}

/// The word is the one character `a`.
pub open spec fn is1(w: Seq<char>, a: char) -> bool {
    w.len() == 1 && w[0] == a
}

/// The word is the two characters `a`, `b`.
pub open spec fn is2(w: Seq<char>, a: char, b: char) -> bool {
    w.len() == 2 && w[0] == a && w[1] == b
}

/// The word is the three characters `a`, `b`, `c`.
pub open spec fn is3(w: Seq<char>, a: char, b: char, c: char) -> bool {
    w.len() == 3 && w[0] == a && w[1] == b && w[2] == c
}

/// The command that a word names, for the words that the language fixes.
pub open spec fn keyword(w: Seq<char>) -> Option<Cmd> {
    if is1(w, 't') {
        Some(Cmd::Var(VarType::Frame))
    } else if is2(w, 'm', 'x') {
        Some(Cmd::Var(VarType::MouseX))
    } else if is2(w, 'm', 'y') {
        Some(Cmd::Var(VarType::MouseY))
    } else if is2(w, 's', 'x') {
        Some(Cmd::Var(VarType::ScreenX))
    } else if is2(w, 's', 'y') {
        Some(Cmd::Var(VarType::ScreenY))
    } else if is2(w, 'k', 'x') {
        Some(Cmd::Var(VarType::KeyboardX))
    } else if is2(w, 'k', 'y') {
        Some(Cmd::Var(VarType::KeyboardY))
    } else if is1(w, '+') {
        Some(Cmd::Bi(BiType::Add))
    } else if is1(w, '-') {
        Some(Cmd::Bi(BiType::Sub))
    } else if is1(w, '*') {
        Some(Cmd::Bi(BiType::Mul))
    } else if is1(w, '/') {
        Some(Cmd::Bi(BiType::Div))
    } else if is1(w, '%') {
        Some(Cmd::Bi(BiType::Mod))
    } else if is2(w, '<', '<') {
        Some(Cmd::Bi(BiType::Shl))
    } else if is2(w, '>', '>') {
        Some(Cmd::Bi(BiType::Shr))
    } else if is1(w, '&') {
        Some(Cmd::Bi(BiType::And))
    } else if is1(w, '|') {
        Some(Cmd::Bi(BiType::Orr))
    } else if is1(w, '^') {
        Some(Cmd::Bi(BiType::Xor))
    } else if is3(w, 's', 'i', 'n') {
        Some(Cmd::Trig(TrigType::Sin))
    } else if is3(w, 'c', 'o', 's') {
        Some(Cmd::Trig(TrigType::Cos))
    } else if is3(w, 't', 'a', 'n') {
        Some(Cmd::Trig(TrigType::Tan))
    } else if is3(w, 'p', 'o', 'w') {
        Some(Cmd::BiFloat(BiFloatType::Pow))
    } else if is2(w, '+', '.') {
        Some(Cmd::BiFloat(BiFloatType::AddF))
    } else if is2(w, '-', '.') {
        Some(Cmd::BiFloat(BiFloatType::SubF))
    } else if is2(w, '*', '.') {
        Some(Cmd::BiFloat(BiFloatType::MulF))
    } else if is2(w, '/', '.') {
        Some(Cmd::BiFloat(BiFloatType::DivF))
    } else if is2(w, '%', '.') {
        Some(Cmd::BiFloat(BiFloatType::ModF))
    } else if is1(w, '<') {
        Some(Cmd::Comp(CompType::Lt))
    } else if is1(w, '>') {
        Some(Cmd::Comp(CompType::Gt))
    } else if is2(w, '<', '=') {
        Some(Cmd::Comp(CompType::Leq))
    } else if is2(w, '>', '=') {
        Some(Cmd::Comp(CompType::Geq))
    } else if is2(w, '=', '=') {
        Some(Cmd::Comp(CompType::Eq))
    } else if is2(w, '!', '=') {
        Some(Cmd::Comp(CompType::Neq))
    } else if is1(w, '?') {
        Some(Cmd::Cond)
    } else {
        None
    }
}

/// `at` is where `c` first stands in `s`, or the length of `s` where it
/// stands nowhere.
pub open spec fn is_first(s: Seq<char>, c: char, at: int) -> bool {
    &&& 0 <= at <= s.len()
    &&& forall|j: int| 0 <= j < at ==> s[j] != c
    &&& at < s.len() ==> s[at] == c
}

/// Where `c` first stands in `s`, or the length of `s`.
pub open spec fn first_of(s: Seq<char>, c: char) -> int {
    choose|at: int| is_first(s, c, at)
}

/// The part of `s` before its first `c`: all of it where it holds none.
pub open spec fn before_first(s: Seq<char>, c: char) -> Seq<char> {
    s.take(first_of(s, c))
}

/// The part of `s` behind its first `c`: nothing where it holds none.
pub open spec fn behind_first(s: Seq<char>, c: char) -> Seq<char> {
    if first_of(s, c) < s.len() {
        s.skip(first_of(s, c) + 1)
    } else {
        Seq::empty()
    }
}

/// The kind of word that a word is, by how it begins, for a word that the
/// language does not fix.
pub enum Shape {
    /// `[` and a size
    Array,
    /// `!`, a key, `:` and a value
    Annotation,
    /// `#` and a text
    Remark,
    /// `0x` and an integer in base 16
    Hex,
    /// a number with a point
    Real,
    /// a number without
    Whole,
}

/// The shape of a word that is not empty.
pub open spec fn shape(w: Seq<char>) -> Shape {
    if w[0] == '[' {
        Shape::Array
    } else if w[0] == '!' && w.contains(':') {
        Shape::Annotation
    } else if w[0] == '#' {
        Shape::Remark
    } else if w.len() >= 2 && w[0] == '0' && w[1] == 'x' {
        Shape::Hex
    } else if w.contains('.') {
        Shape::Real
    } else {
        Shape::Whole
    }
}

/// The word is read as a real number: it is no fixed word, it begins like
/// nothing else, and it holds a point.
pub open spec fn wants_real(w: Seq<char>) -> bool {
    keyword(w) is None && shape(w) is Real
}

/// The command that a word stands for, or why it stands for none. `given` is
/// what the reader of real numbers made of the word; it counts only for a
/// word that `wants_real`.
///
/// A word is a fixed word of the language; or `[` and the size of an array;
/// or `!key:value`, an annotation, where what follows a second colon is
/// dropped; or `#` and a comment; or `0x` and an integer in base 16; or a
/// number, real where it holds a point.
pub open spec fn word_cmd(w: Seq<char>, given: Option<u64>) -> Result<CmdView, Fault> {
    match keyword(w) {
        Some(cmd) => Ok(cmd@),
        None => match shape(w) {
            Shape::Array => match integer_within(w.skip(1), false, false, 0, usize::MAX as int) {
                Some(n) => Ok(CmdView::Arr(n as usize)),
                None => Err(Fault::BadArr),
            },
            Shape::Annotation => Ok(
                CmdView::Meta(
                    before_first(w.skip(1), ':'),
                    before_first(behind_first(w.skip(1), ':'), ':'),
                ),
            ),
            Shape::Remark => Ok(CmdView::Comment(w.skip(1))),
            Shape::Hex => match integer_within(
                w.skip(2),
                true,
                true,
                i64::MIN as int,
                i64::MAX as int,
            ) {
                Some(v) => Ok(CmdView::Literal(LiteralType::Hex(v as i64))),
                None => Err(Fault::UnknownToken),
            },
            Shape::Real => match given {
                Some(bits) => Ok(CmdView::Literal(LiteralType::NumF(bits))),
                None => Err(Fault::UnknownToken),
            },
            Shape::Whole => match integer_within(
                w,
                false,
                true,
                i64::MIN as int,
                i64::MAX as int,
            ) {
                Some(v) => Ok(CmdView::Literal(LiteralType::NumI(v as i64))),
                None => Err(Fault::UnknownToken),
            },
        },
    }
}

/// `given` is what `read_real` may make of the word `w`, where the word is
/// to be read as a real number; it is `None` for any other word.
pub open spec fn given_by<R: Fn(&str) -> Option<u64>>(
    read_real: R,
    w: Seq<char>,
    given: Option<u64>,
) -> bool {
    if wants_real(w) {
        exists|word: &str| word@ == w && #[trigger] call_ensures(read_real, (word,), given)
    } else {
        given is None
    }
}

/// The outcome of reading `text` where `reals[i]` is what the reader of
/// real numbers made of the word at `i`: the commands of all the words, or
/// the first word that stands for none, with its place and its fault. The
/// reader is asked about the words up to that one.
pub open spec fn reads<R: Fn(&str) -> Option<u64>>(
    read_real: R,
    text: Seq<char>,
    reals: Seq<Option<u64>>,
    res: Result<Vec<Cmd>, ParseError<'_>>,
) -> bool {
    let ws = words(text);
    let asked = match res {
        Ok(_) => ws.len() as int,
        Err(ParseError::BadArr(_, at)) => at + 1,
        Err(ParseError::UnknownToken(_, at)) => at + 1,
    };
    &&& reals.len() == ws.len()
    &&& forall|i: int| 0 <= i < ws.len() && i < asked ==> given_by(read_real, ws[i], reals[i])
    &&& match res {
        Ok(cmds) => {
            &&& cmds.len() == ws.len()
            &&& forall|i: int| 0 <= i < ws.len() ==> word_cmd(ws[i], reals[i]) == Ok::<CmdView, Fault>(
                cmds[i]@,
            )
        },
        Err(ParseError::BadArr(word, at)) => {
            &&& at < ws.len()
            &&& word@ == ws[at as int]
            &&& word_cmd(ws[at as int], reals[at as int]) == Err::<CmdView, Fault>(Fault::BadArr)
            &&& forall|i: int| 0 <= i < at ==> word_cmd(ws[i], reals[i]) is Ok
        },
        Err(ParseError::UnknownToken(word, at)) => {
            &&& at < ws.len()
            &&& word@ == ws[at as int]
            &&& word_cmd(ws[at as int], reals[at as int]) == Err::<CmdView, Fault>(
                Fault::UnknownToken,
            )
            &&& forall|i: int| 0 <= i < at ==> word_cmd(ws[i], reals[i]) is Ok
        },
    }
}

/// The fixed word that `w` is: `keyword`.
pub fn read_keyword(w: &[char]) -> (cmd: Option<Cmd>)
    ensures
        cmd == keyword(w@),
{
    if w.len() == 1 {
        match w[0] {
            't' => Some(Cmd::Var(VarType::Frame)),
            '+' => Some(Cmd::Bi(BiType::Add)),
            '-' => Some(Cmd::Bi(BiType::Sub)),
            '*' => Some(Cmd::Bi(BiType::Mul)),
            '/' => Some(Cmd::Bi(BiType::Div)),
            '%' => Some(Cmd::Bi(BiType::Mod)),
            '&' => Some(Cmd::Bi(BiType::And)),
            '|' => Some(Cmd::Bi(BiType::Orr)),
            '^' => Some(Cmd::Bi(BiType::Xor)),
            '<' => Some(Cmd::Comp(CompType::Lt)),
            '>' => Some(Cmd::Comp(CompType::Gt)),
            '?' => Some(Cmd::Cond),
            _ => None,
        }
    } else if w.len() == 2 {
        match (w[0], w[1]) {
            ('m', 'x') => Some(Cmd::Var(VarType::MouseX)),
            ('m', 'y') => Some(Cmd::Var(VarType::MouseY)),
            ('s', 'x') => Some(Cmd::Var(VarType::ScreenX)),
            ('s', 'y') => Some(Cmd::Var(VarType::ScreenY)),
            ('k', 'x') => Some(Cmd::Var(VarType::KeyboardX)),
            ('k', 'y') => Some(Cmd::Var(VarType::KeyboardY)),
            ('<', '<') => Some(Cmd::Bi(BiType::Shl)),
            ('>', '>') => Some(Cmd::Bi(BiType::Shr)),
            ('+', '.') => Some(Cmd::BiFloat(BiFloatType::AddF)),
            ('-', '.') => Some(Cmd::BiFloat(BiFloatType::SubF)),
            ('*', '.') => Some(Cmd::BiFloat(BiFloatType::MulF)),
            ('/', '.') => Some(Cmd::BiFloat(BiFloatType::DivF)),
            ('%', '.') => Some(Cmd::BiFloat(BiFloatType::ModF)),
            ('<', '=') => Some(Cmd::Comp(CompType::Leq)),
            ('>', '=') => Some(Cmd::Comp(CompType::Geq)),
            ('=', '=') => Some(Cmd::Comp(CompType::Eq)),
            ('!', '=') => Some(Cmd::Comp(CompType::Neq)),
            _ => None,
        }
    } else if w.len() == 3 {
        match (w[0], w[1], w[2]) {
            ('s', 'i', 'n') => Some(Cmd::Trig(TrigType::Sin)),
            ('c', 'o', 's') => Some(Cmd::Trig(TrigType::Cos)),
            ('t', 'a', 'n') => Some(Cmd::Trig(TrigType::Tan)),
            ('p', 'o', 'w') => Some(Cmd::BiFloat(BiFloatType::Pow)),
            _ => None,
        }
    } else {
        None
    }
}

/// Where `c` first stands in `s`: `first_of`.
pub fn find(s: &[char], c: char) -> (at: usize)
    ensures
        at == first_of(s@, c),
        is_first(s@, c, at as int),
{
    let mut at: usize = 0;
    while at < s.len() && s[at] != c
        invariant
            at <= s.len(),
            forall|j: int| 0 <= j < at ==> s@[j] != c,
        decreases s.len() - at,
    {
        at += 1;
    }
    proof {
        assert(is_first(s@, c, at as int));
    }
    at
}

/// The shape of a word: `shape`.
pub fn read_shape(w: &[char]) -> (kind: Shape)
    requires
        w.len() > 0,
    ensures
        kind == shape(w@),
{
    let colon = find(w, ':');
    let point = find(w, '.');
    if w[0] == '[' {
        Shape::Array
    } else if w[0] == '!' && colon < w.len() {
        Shape::Annotation
    } else if w[0] == '#' {
        Shape::Remark
    } else if w.len() >= 2 && w[0] == '0' && w[1] == 'x' {
        Shape::Hex
    } else if point < w.len() {
        Shape::Real
    } else {
        Shape::Whole
    }
}

/// Whether a word is read as a real number: `wants_real`.
pub fn is_real_word(w: &[char]) -> (wants: bool)
    requires
        w.len() > 0,
    ensures
        wants == wants_real(w@),
{
    match read_keyword(w) {
        Some(_) => false,
        None => match read_shape(w) {
            Shape::Real => true,
            _ => false,
        },
    }
}

/// Reads one word that is not empty: `word_cmd`. `given` is what the reader
/// of real numbers made of the word.
pub fn read_word(w: &[char], given: Option<u64>) -> (res: Result<Cmd, Fault>)
    requires
        w.len() > 0,
    ensures
        match res {
            Ok(cmd) => word_cmd(w@, given) == Ok::<CmdView, Fault>(cmd@),
            Err(fault) => word_cmd(w@, given) == Err::<CmdView, Fault>(fault),
        },
{
    if let Some(cmd) = read_keyword(w) {
        return Ok(cmd);
    }
    match read_shape(w) {
        Shape::Array => {
            let tail = slice_subrange(w, 1, w.len());
            match read_usize(tail) {
                Some(n) => Ok(Cmd::Arr(n)),
                None => Err(Fault::BadArr),
            }
        },
        Shape::Annotation => {
            let tail = slice_subrange(w, 1, w.len());
            let colon = find(tail, ':');
            let key = slice_subrange(tail, 0, colon);
            let rest = if colon < tail.len() {
                slice_subrange(tail, colon + 1, tail.len())
            } else {
                slice_subrange(tail, 0, 0)
            };
            assert(rest@ == behind_first(tail@, ':'));
            let end = find(rest, ':');
            let value = slice_subrange(rest, 0, end);
            Ok(Cmd::Meta(string_of(key), string_of(value)))
        },
        Shape::Remark => {
            let tail = slice_subrange(w, 1, w.len());
            Ok(Cmd::Comment(string_of(tail)))
        },
        Shape::Hex => {
            let tail = slice_subrange(w, 2, w.len());
            match read_i64(tail, true) {
                Some(v) => Ok(Cmd::Literal(LiteralType::Hex(v))),
                None => Err(Fault::UnknownToken),
            }
        },
        Shape::Real => match given {
            Some(bits) => Ok(Cmd::Literal(LiteralType::NumF(bits))),
            None => Err(Fault::UnknownToken),
        },
        Shape::Whole => match read_i64(w, false) {
            Some(v) => Ok(Cmd::Literal(LiteralType::NumI(v))),
            None => Err(Fault::UnknownToken),
        },
    }
}

/// Attempt to parse a text containing a program: its words, split at white
/// space, each read as one command (`word_cmd`). Fails at the first word that
/// stands for no command, with the word and its place.
///
/// The library does not read real numbers. A word that is to be read as one
/// (`wants_real`) is handed to `read_real`, whose result is the bits of the
/// number, or `None` where the word writes none. The outcome is therefore
/// stated for what `read_real` gave.
pub fn parse_beat<'a, R: Fn(&str) -> Option<u64>>(text: &'a str, read_real: &R) -> (res: Result<
    Vec<Cmd>,
    ParseError<'a>,
>)
    requires
        forall|word: &str| call_requires(*read_real, (word,)),
    ensures
        exists|reals: Seq<Option<u64>>| reads(*read_real, text@, reals, res),
{
    let chars = chars_of(text);
    let places = split_words(&chars);
    let ghost ws = words(text@);
    let ghost mut reals: Seq<Option<u64>> = Seq::empty();
    let mut cmds: Vec<Cmd> = Vec::with_capacity(places.len());
    let mut i: usize = 0;
    while i < places.len()
        invariant
            i <= places.len(),
            chars@ == text@,
            ws == words(text@),
            places.len() == ws.len(),
            forall|k: int|
                0 <= k < places.len() ==> {
                    &&& (#[trigger] places[k]).0 < places[k].1 <= chars.len()
                    &&& chars@.subrange(places[k].0 as int, places[k].1 as int) == ws[k]
                },
            cmds.len() == i,
            reals.len() == i,
            forall|k: int| 0 <= k < i ==> word_cmd(ws[k], reals[k]) == Ok::<CmdView, Fault>(
                cmds[k]@,
            ),
            forall|k: int| 0 <= k < i ==> given_by(*read_real, ws[k], reals[k]),
            forall|word: &str| call_requires(*read_real, (word,)),
        decreases places.len() - i,
    {
        let (from, to) = places[i];
        let word = slice_subrange(chars.as_slice(), from, to);
        let given = if is_real_word(word) {
            read_real(text.substring_char(from, to))
        } else {
            None
        };
        proof {
            reals = reals.push(given);
        }
        match read_word(word, given) {
            Ok(cmd) => {
                cmds.push(cmd);
            },
            Err(fault) => {
                let token = text.substring_char(from, to);
                let ghost rest = Seq::new((ws.len() - i - 1) as nat, |k: int| None::<u64>);
                let res = match fault {
                    Fault::BadArr => Err(ParseError::BadArr(token, i)),
                    Fault::UnknownToken => Err(ParseError::UnknownToken(token, i)),
                };
                assert(reads(*read_real, text@, reals + rest, res));
                return res;
            },
        }
        i += 1;
    }
    let res = Ok(cmds);
    assert(reads(*read_real, text@, reals, res));
    res
}

} // verus!
