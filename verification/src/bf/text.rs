use vstd::prelude::*;
use vstd::std_specs::iter::IteratorSpec;
use crate::bf::program::{well_nested, BFChar, InvalidProgram, Program};
use crate::text::push_char;

verus! {

broadcast use vstd::string::group_string_axioms;

/// The instruction that a character stands for, if any.
pub open spec fn instruction_of(c: char) -> Option<BFChar> {
    if c == '+' {
        Some(BFChar::Plus)
    } else if c == '-' {
        Some(BFChar::Minus)
    } else if c == '<' {
        Some(BFChar::Left)
    } else if c == '>' {
        Some(BFChar::Right)
    } else if c == '[' {
        Some(BFChar::StartLoop)
    } else if c == ']' {
        Some(BFChar::EndLoop)
    } else if c == ',' {
        Some(BFChar::Input)
    } else if c == '.' {
        Some(BFChar::Output)
    } else {
        None
    }
}

/// The character that stands for an instruction.
pub open spec fn glyph(instr: BFChar) -> char {
    match instr {
        BFChar::Plus => '+',
        BFChar::Minus => '-',
        BFChar::Left => '<',
        BFChar::Right => '>',
        BFChar::StartLoop => '[',
        BFChar::EndLoop => ']',
        BFChar::Input => ',',
        BFChar::Output => '.',
    }
}

/// The instructions that a text holds: those of its characters that stand
/// for one, in their order; every other character is passed over.
pub open spec fn parsed(text: Seq<char>) -> Seq<BFChar>
    decreases text.len(),
{
    if text.len() == 0 {
        Seq::empty()
    } else {
        match instruction_of(text.last()) {
            Some(instr) => parsed(text.drop_last()).push(instr),
            None => parsed(text.drop_last()),
        }
    }
}

/// The text of a sequence of instructions: one character for each.
pub open spec fn printed(instrs: Seq<BFChar>) -> Seq<char> {
    Seq::new(instrs.len(), |i: int| glyph(instrs[i]))
}

/// Reading back what was printed gives the instructions that were printed.
pub proof fn lemma_parse_printed(instrs: Seq<BFChar>)
    ensures
        parsed(printed(instrs)) == instrs,
    decreases instrs.len(),
{
    if instrs.len() > 0 {
        lemma_parse_printed(instrs.drop_last());
        assert(printed(instrs).drop_last() == printed(instrs.drop_last()));
    }
}

/// The instruction that `c` stands for.
pub fn instruction(c: char) -> (instr: Option<BFChar>)
    ensures
        instr == instruction_of(c),
{
    match c {
        '+' => Some(BFChar::Plus),
        '-' => Some(BFChar::Minus),
        '<' => Some(BFChar::Left),
        '>' => Some(BFChar::Right),
        '[' => Some(BFChar::StartLoop),
        ']' => Some(BFChar::EndLoop),
        ',' => Some(BFChar::Input),
        '.' => Some(BFChar::Output),
        _ => None,
    }
}

/// Reads a program from a text, one instruction for each character that
/// stands for one; other characters are passed over. Fails where the loops
/// of what was read do not nest.
pub fn from_string(string: &str) -> (res: Result<Program, InvalidProgram>)
    ensures
        match res {
            Ok(program) => program@ == parsed(string@) && well_nested(program@),
            Err(_) => !well_nested(parsed(string@)),
        },
{
    let mut program: Vec<BFChar> = Vec::new();
    let mut chars = string.chars();
    let ghost mut seen: Seq<char> = Seq::empty();
    loop
        invariant
            seen + chars.remaining() == string@,
            program@ == parsed(seen),
            chars.decrease() is Some,
        ensures
            program@ == parsed(string@),
        decreases chars.decrease()->0,
    {
        match chars.next() {
            Some(c) => {
                proof {
                    assert(seen.push(c).drop_last() == seen);
                    seen = seen.push(c);
                }
                match instruction(c) {
                    Some(instr) => program.push(instr),
                    None => {},
                }
            },
            None => {
                break ;
            },
        }
    }
    Program::new(program)
}

/// Writes a sequence of instructions as a text, one character for each.
pub fn to_string(program: &[BFChar]) -> (string: String)
    ensures
        string@ == printed(program@),
{
    let mut string = String::new();
    let mut i: usize = 0;
    while i < program.len()
        invariant
            i <= program.len(),
            string@ == printed(program@.take(i as int)),
        decreases program.len() - i,
    {
        let letter: char = match program[i] {
            BFChar::Plus => '+',
            BFChar::Minus => '-',
            BFChar::Left => '<',
            BFChar::Right => '>',
            BFChar::StartLoop => '[',
            BFChar::EndLoop => ']',
            BFChar::Input => ',',
            BFChar::Output => '.',
        };
        push_char(&mut string, letter);
        i += 1;
    }
    string
}

impl Program {
    /// The program as a line of text: its instructions, one character for
    /// each, and the end of the line.
    pub fn to_text(&self) -> (line: String)
        ensures
            line@ == printed(self@).push('\n'),
    {
        let mut line = to_string(self.instrs().as_slice());
        push_char(&mut line, '\n');
        line
    }
}

} // verus!
