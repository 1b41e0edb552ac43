use vstd::prelude::*;
use vstd::string::StringExecFns;
use crate::bytebeat::cmd::{
    BiFloatType, BiType, Cmd, CmdView, CompType, LiteralType, TrigType, VarType,
};
use crate::bytebeat::compile::Program;
use crate::bytebeat::lex::chars_of;
use crate::bytebeat::numeral::{numeral, push_numeral, push_signed, push_word, signed_numeral};
use crate::bytebeat::parse::find;
use crate::text::push_char;

verus! {

/// The word of a variable.
pub open spec fn var_word(var: VarType) -> Seq<char> {
    match var {
        VarType::Frame => seq!['t'],
        VarType::MouseX => seq!['m', 'x'],
        VarType::MouseY => seq!['m', 'y'],
        VarType::ScreenX => seq!['s', 'x'],
        VarType::ScreenY => seq!['s', 'y'],
        VarType::KeyboardX => seq!['k', 'x'],
        VarType::KeyboardY => seq!['k', 'y'],
    }
}

/// The word of a binary integer operator.
pub open spec fn bi_word(op: BiType) -> Seq<char> {
    match op {
        BiType::Add => seq!['+'],
        BiType::Sub => seq!['-'],
        BiType::Mul => seq!['*'],
        BiType::Div => seq!['/'],
        BiType::Mod => seq!['%'],
        BiType::Shl => seq!['<', '<'],
        BiType::Shr => seq!['>', '>'],
        BiType::And => seq!['&'],
        BiType::Orr => seq!['|'],
        BiType::Xor => seq!['^'],
    }
}

/// The word of a trigonometric operator.
pub open spec fn trig_word(op: TrigType) -> Seq<char> {
    match op {
        TrigType::Sin => seq!['s', 'i', 'n'],
        TrigType::Cos => seq!['c', 'o', 's'],
        TrigType::Tan => seq!['t', 'a', 'n'],
    }
}

/// The word of a binary real operator.
pub open spec fn bifloat_word(op: BiFloatType) -> Seq<char> {
    match op {
        BiFloatType::Pow => seq!['p', 'o', 'w'],
        BiFloatType::AddF => seq!['+', '.'],
        BiFloatType::SubF => seq!['-', '.'],
        BiFloatType::MulF => seq!['*', '.'],
        BiFloatType::DivF => seq!['/', '.'],
        BiFloatType::ModF => seq!['%', '.'],
    }
}

/// The word of a comparison.
pub open spec fn comp_word(op: CompType) -> Seq<char> {
    match op {
        CompType::Lt => seq!['<'],
        CompType::Gt => seq!['>'],
        CompType::Leq => seq!['<', '='],
        CompType::Geq => seq!['>', '='],
        CompType::Eq => seq!['=', '='],
        CompType::Neq => seq!['!', '='],
    }
}

/// The word of a command. `shown` is the text that the writer of real
/// numbers gave for a real literal; it gets `.0` behind it where it holds no
/// point. An integer is written in base 10, one in hexadecimal as `0x` and
/// the digits of its 64 bits read as an unsigned number.
pub open spec fn word_of(cmd: CmdView, shown: Seq<char>) -> Seq<char> {
    match cmd {
        CmdView::Var(var) => var_word(var),
        CmdView::Literal(LiteralType::NumF(_)) => if shown.contains('.') {
            shown
        } else {
            shown + seq!['.', '0']
        },
        CmdView::Literal(LiteralType::NumI(y)) => signed_numeral(y as int),
        CmdView::Literal(LiteralType::Hex(y)) => seq!['0', 'x'] + numeral(y as u64 as nat, true),
        CmdView::Bi(op) => bi_word(op),
        CmdView::Trig(op) => trig_word(op),
        CmdView::BiFloat(op) => bifloat_word(op),
        CmdView::Comp(op) => comp_word(op),
        CmdView::Cond => seq!['?'],
        CmdView::Arr(size) => seq!['['] + numeral(size as nat, false),
        CmdView::Meta(k, v) => seq!['!'] + k + seq![':'] + v,
        CmdView::Comment(text) => seq!['#'] + text,
    }
}

/// The words in a row, one space between two.
pub open spec fn joined(ws: Seq<Seq<char>>) -> Seq<char>
    decreases ws.len(),
{
    if ws.len() == 0 {
        Seq::empty()
    } else if ws.len() == 1 {
        ws[0]
    } else {
        joined(ws.drop_last()) + seq![' '] + ws.last()
    }
}

/// `shown` is the text that `show_real` may give for the command, where it
/// is a real literal; it is empty for any other command.
pub open spec fn shown_by<W: Fn(u64) -> String>(show_real: W, cmd: Cmd, shown: Seq<char>) -> bool {
    match cmd {
        Cmd::Literal(LiteralType::NumF(bits)) => exists|number: String|
            number@ == shown && #[trigger] call_ensures(show_real, (bits,), number),
        _ => shown.len() == 0,
    }
}

/// The text of the commands where `shown[i]` is what the writer of real
/// numbers gave for the command at `i`: the words of the commands, joined.
pub open spec fn writes<W: Fn(u64) -> String>(
    show_real: W,
    cmds: Seq<Cmd>,
    shown: Seq<Seq<char>>,
    text: Seq<char>,
) -> bool {
    &&& shown.len() == cmds.len()
    &&& forall|i: int| 0 <= i < cmds.len() ==> shown_by(show_real, cmds[i], #[trigger] shown[i])
    &&& text == joined(words_of(cmds, shown))
}

/// The words of the commands, where `shown[i]` is the text that the writer
/// of real numbers gave for the command at `i`.
pub open spec fn words_of(cmds: Seq<Cmd>, shown: Seq<Seq<char>>) -> Seq<Seq<char>> {
    Seq::new(cmds.len(), |i: int| word_of(cmds[i]@, shown[i]))
}

/// The word of a command: `word_of`. `shown` is the text of the command's
/// number where it is a real literal, and is not read where it is none.
pub fn format_cmd(cmd: &Cmd, shown: &str) -> (word: String)
    ensures
        word@ == word_of(cmd@, shown@),
{
    let mut out = String::new();
    match cmd {
        Cmd::Var(VarType::Frame) => {
            push_char(&mut out, 't');
        },
        Cmd::Var(VarType::MouseX) => {
            push_char(&mut out, 'm');
            push_char(&mut out, 'x');
        },
        Cmd::Var(VarType::MouseY) => {
            push_char(&mut out, 'm');
            push_char(&mut out, 'y');
        },
        Cmd::Var(VarType::ScreenX) => {
            push_char(&mut out, 's');
            push_char(&mut out, 'x');
        },
        Cmd::Var(VarType::ScreenY) => {
            push_char(&mut out, 's');
            push_char(&mut out, 'y');
        },
        Cmd::Var(VarType::KeyboardX) => {
            push_char(&mut out, 'k');
            push_char(&mut out, 'x');
        },
        Cmd::Var(VarType::KeyboardY) => {
            push_char(&mut out, 'k');
            push_char(&mut out, 'y');
        },
        Cmd::Literal(LiteralType::NumF(_)) => {
            push_word(&mut out, shown);
            let chars = chars_of(shown);
            let point = find(chars.as_slice(), '.');
            if point >= chars.len() {
                push_char(&mut out, '.');
                push_char(&mut out, '0');
            }
        },
        Cmd::Literal(LiteralType::NumI(y)) => {
            push_signed(&mut out, *y);
        },
        Cmd::Literal(LiteralType::Hex(y)) => {
            push_char(&mut out, '0');
            push_char(&mut out, 'x');
            push_numeral(&mut out, #[verifier::truncate] (*y as u64), true);
        },
        Cmd::Bi(op) => {
            match op {
                BiType::Add => push_char(&mut out, '+'),
                BiType::Sub => push_char(&mut out, '-'),
                BiType::Mul => push_char(&mut out, '*'),
                BiType::Div => push_char(&mut out, '/'),
                BiType::Mod => push_char(&mut out, '%'),
                BiType::Shl => {
                    push_char(&mut out, '<');
                    push_char(&mut out, '<');
                },
                BiType::Shr => {
                    push_char(&mut out, '>');
                    push_char(&mut out, '>');
                },
                BiType::And => push_char(&mut out, '&'),
                BiType::Orr => push_char(&mut out, '|'),
                BiType::Xor => push_char(&mut out, '^'),
            }
        },
        Cmd::Trig(op) => {
            match op {
                TrigType::Sin => {
                    push_char(&mut out, 's');
                    push_char(&mut out, 'i');
                    push_char(&mut out, 'n');
                },
                TrigType::Cos => {
                    push_char(&mut out, 'c');
                    push_char(&mut out, 'o');
                    push_char(&mut out, 's');
                },
                TrigType::Tan => {
                    push_char(&mut out, 't');
                    push_char(&mut out, 'a');
                    push_char(&mut out, 'n');
                },
            }
        },
        Cmd::BiFloat(op) => {
            match op {
                BiFloatType::Pow => {
                    push_char(&mut out, 'p');
                    push_char(&mut out, 'o');
                    push_char(&mut out, 'w');
                },
                BiFloatType::AddF => {
                    push_char(&mut out, '+');
                    push_char(&mut out, '.');
                },
                BiFloatType::SubF => {
                    push_char(&mut out, '-');
                    push_char(&mut out, '.');
                },
                BiFloatType::MulF => {
                    push_char(&mut out, '*');
                    push_char(&mut out, '.');
                },
                BiFloatType::DivF => {
                    push_char(&mut out, '/');
                    push_char(&mut out, '.');
                },
                BiFloatType::ModF => {
                    push_char(&mut out, '%');
                    push_char(&mut out, '.');
                },
            }
        },
        Cmd::Comp(op) => {
            match op {
                CompType::Lt => push_char(&mut out, '<'),
                CompType::Gt => push_char(&mut out, '>'),
                CompType::Leq => {
                    push_char(&mut out, '<');
                    push_char(&mut out, '=');
                },
                CompType::Geq => {
                    push_char(&mut out, '>');
                    push_char(&mut out, '=');
                },
                CompType::Eq => {
                    push_char(&mut out, '=');
                    push_char(&mut out, '=');
                },
                CompType::Neq => {
                    push_char(&mut out, '!');
                    push_char(&mut out, '=');
                },
            }
        },
        Cmd::Cond => {
            push_char(&mut out, '?');
        },
        Cmd::Arr(size) => {
            push_char(&mut out, '[');
            push_numeral(&mut out, *size as u64, false);
        },
        Cmd::Meta(k, v) => {
            push_char(&mut out, '!');
            push_word(&mut out, k.as_str());
            push_char(&mut out, ':');
            push_word(&mut out, v.as_str());
        },
        Cmd::Comment(text) => {
            push_char(&mut out, '#');
            push_word(&mut out, text.as_str());
        },
    }
    out
}

/// Format a slice of commands into a text: the word of each (`word_of`),
/// one space between two.
///
/// The library does not write real numbers. For a real literal `show_real`
/// is called with the bits of the number, and its result is the number's
/// text. The text is therefore stated for what `show_real` gave.
pub fn format_beat<W: Fn(u64) -> String>(cmds: &[Cmd], show_real: &W) -> (text: String)
    requires
        forall|bits: u64| call_requires(*show_real, (bits,)),
    ensures
        exists|shown: Seq<Seq<char>>| writes(*show_real, cmds@, shown, text@),
{
    let mut text = String::new();
    let ghost mut shown: Seq<Seq<char>> = Seq::empty();
    let mut i: usize = 0;
    while i < cmds.len()
        invariant
            i <= cmds.len(),
            shown.len() == i,
            text@ == joined(words_of(cmds@.take(i as int), shown)),
            forall|k: int| 0 <= k < i ==> shown_by(*show_real, cmds@[k], #[trigger] shown[k]),
            forall|bits: u64| call_requires(*show_real, (bits,)),
        decreases cmds.len() - i,
    {
        let ghost before = words_of(cmds@.take(i as int), shown);
        let ghost given: Seq<char>;
        let word = match &cmds[i] {
            Cmd::Literal(LiteralType::NumF(bits)) => {
                let number = show_real(*bits);
                proof {
                    given = number@;
                }
                format_cmd(&cmds[i], number.as_str())
            },
            _ => {
                proof {
                    given = Seq::empty();
                }
                let blank = String::new();
                format_cmd(&cmds[i], blank.as_str())
            },
        };
        proof {
            shown = shown.push(given);
            let after = words_of(cmds@.take(i + 1), shown);
            assert(after.drop_last() =~= before);
        }
        if i > 0 {
            push_char(&mut text, ' ');
        }
        text.append(word.as_str());
        i += 1;
    }
    assert(cmds@.take(i as int) == cmds@);
    assert(writes(*show_real, cmds@, shown, text@));
    text
}

impl Program {
    /// The program as a text: `format_beat` of its commands.
    pub fn to_text<W: Fn(u64) -> String>(&self, show_real: &W) -> (text: String)
        requires
            forall|bits: u64| call_requires(*show_real, (bits,)),
        ensures
            exists|shown: Seq<Seq<char>>| writes(*show_real, self.code(), shown, text@),
    {
        format_beat(self.cmds().as_slice(), show_real)
    }
}

} // verus!
