//! Reading back what was written: the words of a written text are the
//! words that were joined, and each word reads as the command it was
//! written for.

use vstd::prelude::*;
use crate::bytebeat::cmd::{Cmd, CmdView, LiteralType};
use crate::bytebeat::format::{joined, shown_by, word_of, words_of, writes};
use crate::bytebeat::lex::{all_digits, digit_of, is_space, number, spaceless, words};
use crate::bytebeat::numeral::{digit_char, numeral, signed_numeral};
use crate::bytebeat::parse::{
    before_first, behind_first, first_of, given_by, is_first, keyword, reads, wants_real,
    word_cmd, Fault, ParseError,
};

verus! {

/// A text that ends a word, followed by a word, has the words of the text
/// and then that word.
pub proof fn lemma_words_append(text: Seq<char>, w: Seq<char>)
    requires
        text.len() == 0 || is_space(text.last()),
        w.len() > 0,
        spaceless(w),
    ensures
        words(text + w) == words(text).push(w),
    decreases w.len(),
{
    let whole = text + w;
    let c = w.last();
    assert(whole.drop_last() == text + w.drop_last());
    if w.len() == 1 {
        assert(w == seq![c]);
    } else {
        lemma_words_append(text, w.drop_last());
        let before = words(text).push(w.drop_last());
        assert(before.last().push(c) == w);
    }
}

/// The words of words that were joined are those words, where none is empty
/// or holds white space.
pub proof fn lemma_words_of_joined(ws: Seq<Seq<char>>)
    requires
        forall|i: int| 0 <= i < ws.len() ==> (#[trigger] ws[i]).len() > 0 && spaceless(ws[i]),
    ensures
        words(joined(ws)) == ws,
    decreases ws.len(),
{
    if ws.len() == 1 {
        lemma_words_append(Seq::empty(), ws[0]);
    } else if ws.len() > 1 {
        let rest = ws.drop_last();
        lemma_words_of_joined(rest);
        let head = joined(rest) + seq![' '];
        assert(head.drop_last() == joined(rest));
        lemma_words_append(head, ws.last());
    }
}

/// The digit that stands for a value has that value.
pub proof fn lemma_digit_char(d: int, hex: bool)
    requires
        0 <= d < 16,
        !hex ==> d < 10,
    ensures
        digit_of(digit_char(d), hex) == Some(d),
        digit_char(d) != '+',
        digit_char(d) != '-',
        digit_char(d) != '.',
        digit_char(d) != 'x',
        !is_space(digit_char(d)),
{
}

/// The digits of a number are digits, and write that number.
pub proof fn lemma_numeral(n: nat, hex: bool)
    ensures
        numeral(n, hex).len() > 0,
        all_digits(numeral(n, hex), hex),
        number(numeral(n, hex), hex) == n,
        forall|i: int|
            0 <= i < numeral(n, hex).len() ==> {
                let c = #[trigger] numeral(n, hex)[i];
                c != '+' && c != '-' && c != '.' && c != 'x' && !is_space(c)
            },
    decreases n,
{
    let base: nat = if hex { 16 } else { 10 };
    let s = numeral(n, hex);
    if n < base {
        lemma_digit_char(n as int, hex);
        assert(number(s.drop_last(), hex) == 0);
    } else {
        lemma_numeral(n / base, hex);
        lemma_digit_char(n as int % base as int, hex);
        let head = numeral(n / base, hex);
        assert(s.drop_last() == head);
    }
}

/// Where `c` first stands is the one place that `is_first` describes.
pub proof fn lemma_first_unique(s: Seq<char>, c: char, at: int)
    requires
        is_first(s, c, at),
    ensures
        first_of(s, c) == at,
{
}

/// A command whose word reads back as the command.
///
/// Left out are an integer in hexadecimal that is negative, whose 64 bits
/// are written as a number too large to read; and an annotation or a comment
/// whose texts hold white space, or a colon in a key or a value. A real
/// literal is written and read outside the library: its word reads back
/// where that word is taken for a real number and read as the number that
/// was written.
pub open spec fn reads_back(cmd: Cmd, shown: Seq<char>, given: Option<u64>) -> bool {
    match cmd {
        Cmd::Literal(LiteralType::NumF(bits)) => {
            &&& wants_real(word_of(cmd@, shown))
            &&& spaceless(word_of(cmd@, shown))
            &&& word_of(cmd@, shown).len() > 0
            &&& given == Some(bits)
        },
        Cmd::Literal(LiteralType::Hex(y)) => y >= 0,
        Cmd::Meta(k, v) => {
            &&& spaceless(k@)
            &&& spaceless(v@)
            &&& !k@.contains(':')
            &&& !v@.contains(':')
        },
        Cmd::Comment(text) => spaceless(text@),
        _ => true,
    }
}

/// The word of a variable, an operator or a comparison reads as that
/// command.
pub proof fn lemma_fixed_word_reads_back(cmd: Cmd)
    requires
        cmd is Var || cmd is Bi || cmd is Trig || cmd is BiFloat || cmd is Comp || cmd is Cond,
    ensures
        keyword(word_of(cmd@, Seq::empty())) == Some(cmd),
        spaceless(word_of(cmd@, Seq::empty())),
        word_of(cmd@, Seq::empty()).len() > 0,
{
}

/// The word of an integer literal reads as that literal.
pub proof fn lemma_integer_reads_back(y: i64)
    ensures
        word_cmd(signed_numeral(y as int), None) == Ok::<CmdView, Fault>(
            CmdView::Literal(LiteralType::NumI(y)),
        ),
        spaceless(signed_numeral(y as int)),
        signed_numeral(y as int).len() > 0,
{
    let w = signed_numeral(y as int);
    if y < 0 {
        let digits = numeral((-y) as nat, false);
        lemma_numeral((-y) as nat, false);
        assert(w.subrange(1, w.len() as int) == digits);
    } else {
        lemma_numeral(y as nat, false);
        assert(digit_of(w[0], false) is Some);
    }
}

/// The word of an integer in hexadecimal that is not negative reads as that
/// literal.
pub proof fn lemma_hex_reads_back(y: i64)
    requires
        y >= 0,
    ensures
        word_cmd(seq!['0', 'x'] + numeral(y as u64 as nat, true), None) == Ok::<CmdView, Fault>(
            CmdView::Literal(LiteralType::Hex(y)),
        ),
        spaceless(seq!['0', 'x'] + numeral(y as u64 as nat, true)),
{
    let digits = numeral(y as u64 as nat, true);
    let w = seq!['0', 'x'] + digits;
    lemma_numeral(y as u64 as nat, true);
    assert(w.skip(2) == digits);
}

/// The word of an array reads as that array.
pub proof fn lemma_array_reads_back(size: usize)
    ensures
        word_cmd(seq!['['] + numeral(size as nat, false), None) == Ok::<CmdView, Fault>(
            CmdView::Arr(size),
        ),
        spaceless(seq!['['] + numeral(size as nat, false)),
{
    let digits = numeral(size as nat, false);
    let w = seq!['['] + digits;
    lemma_numeral(size as nat, false);
    assert(w.skip(1) == digits);
}

/// The word of an annotation reads as that annotation, where its key and
/// its value hold no colon.
pub proof fn lemma_annotation_reads_back(k: Seq<char>, v: Seq<char>)
    requires
        !k.contains(':'),
        !v.contains(':'),
    ensures
        word_cmd(seq!['!'] + k + seq![':'] + v, None) == Ok::<CmdView, Fault>(CmdView::Meta(k, v)),
{
    let w = seq!['!'] + k + seq![':'] + v;
    let tail = k + seq![':'] + v;
    assert(w.skip(1) == tail);
    lemma_first_unique(tail, ':', k.len() as int);
    assert(before_first(tail, ':') == k);
    assert(behind_first(tail, ':') == v);
    lemma_first_unique(v, ':', v.len() as int);
    assert(before_first(v, ':') == v);
}

/// The word of a comment reads as that comment.
pub proof fn lemma_comment_reads_back(text: Seq<char>)
    ensures
        word_cmd(seq!['#'] + text, None) == Ok::<CmdView, Fault>(CmdView::Comment(text)),
{
    let w = seq!['#'] + text;
    assert(w.skip(1) == text);
}

/// The word of a command reads as that command, for a command that
/// `reads_back`, and is a word: not empty and without white space.
pub proof fn lemma_word_reads_back(cmd: Cmd, shown: Seq<char>, given: Option<u64>)
    requires
        reads_back(cmd, shown, given),
    ensures
        word_cmd(word_of(cmd@, shown), given) == Ok::<CmdView, Fault>(cmd@),
        word_of(cmd@, shown).len() > 0,
        spaceless(word_of(cmd@, shown)),
{
    match cmd {
        Cmd::Literal(LiteralType::NumF(_)) => {},
        Cmd::Literal(LiteralType::NumI(y)) => {
            lemma_integer_reads_back(y);
        },
        Cmd::Literal(LiteralType::Hex(y)) => {
            lemma_hex_reads_back(y);
        },
        Cmd::Arr(size) => {
            lemma_array_reads_back(size);
        },
        Cmd::Meta(k, v) => {
            lemma_annotation_reads_back(k@, v@);
        },
        Cmd::Comment(text) => {
            lemma_comment_reads_back(text@);
        },
        _ => {
            lemma_fixed_word_reads_back(cmd);
        },
    }
}

/// Reading back what was written gives the commands that were written:
/// the text of commands that `reads_back` has one word for each command, and
/// each word reads as its command.
pub proof fn lemma_read_written(
    cmds: Seq<Cmd>,
    shown: Seq<Seq<char>>,
    reals: Seq<Option<u64>>,
)
    requires
        forall|i: int| 0 <= i < cmds.len() ==> reads_back(#[trigger] cmds[i], shown[i], reals[i]),
    ensures
        words(joined(words_of(cmds, shown))).len() == cmds.len(),
        forall|i: int|
            0 <= i < cmds.len() ==> word_cmd(
                #[trigger] words(joined(words_of(cmds, shown)))[i],
                reals[i],
            ) == Ok::<CmdView, Fault>(cmds[i]@),
{
    let ws = words_of(cmds, shown);
    assert forall|i: int| 0 <= i < ws.len() implies (#[trigger] ws[i]).len() > 0 && spaceless(
        ws[i],
    ) by {
        lemma_word_reads_back(cmds[i], shown[i], reals[i]);
    }
    lemma_words_of_joined(ws);
    assert forall|i: int| 0 <= i < cmds.len() implies word_cmd(
        #[trigger] words(joined(ws))[i],
        reals[i],
    ) == Ok::<CmdView, Fault>(cmds[i]@) by {
        lemma_word_reads_back(cmds[i], shown[i], reals[i]);
    }
}

/// Parsing what was formatted gives the commands back: where `text` was
/// written for `cmds` and every command `reads_back`, an outcome of reading
/// `text` is a list of as many commands, each equal to the one written.
pub proof fn lemma_parse_formatted<W: Fn(u64) -> String, R: Fn(&str) -> Option<u64>>(
    show_real: W,
    read_real: R,
    cmds: Seq<Cmd>,
    shown: Seq<Seq<char>>,
    text: Seq<char>,
    reals: Seq<Option<u64>>,
    res: Result<Vec<Cmd>, ParseError<'_>>,
)
    requires
        writes(show_real, cmds, shown, text),
        reads(read_real, text, reals, res),
        forall|i: int| 0 <= i < cmds.len() ==> reads_back(#[trigger] cmds[i], shown[i], reals[i]),
    ensures
        res is Ok,
        res->Ok_0.len() == cmds.len(),
        forall|i: int| 0 <= i < cmds.len() ==> (#[trigger] res->Ok_0[i])@ == cmds[i]@,
{
    lemma_read_written(cmds, shown, reals);
}

/// A command that can be written and read back, as far as the library
/// writes and reads it: any command but an integer in hexadecimal that is
/// negative, and an annotation or a comment whose texts hold white space,
/// or a colon in a key or a value.
pub open spec fn writable(cmd: Cmd) -> bool {
    cmd is Literal && cmd->Literal_0 is NumF || reads_back(cmd, Seq::empty(), None)
}

/// What the writer of real numbers gives is a word that is taken for a real
/// number: by itself where it holds a point, and else with `.0` behind it.
pub open spec fn writes_real_words<W: Fn(u64) -> String>(show_real: W) -> bool {
    forall|bits: u64, number: String| #[trigger]
        call_ensures(show_real, (bits,), number) ==> {
            let word = word_of(CmdView::Literal(LiteralType::NumF(bits)), number@);
            wants_real(word) && spaceless(word) && word.len() > 0
        }
}

/// The reader of real numbers reads what the writer wrote: of the word of
/// a real literal it makes the number of that literal.
pub open spec fn reads_what_is_written<W: Fn(u64) -> String, R: Fn(&str) -> Option<u64>>(
    show_real: W,
    read_real: R,
) -> bool {
    forall|bits: u64, number: String, word: &str, given: Option<u64>|
        #[trigger] call_ensures(show_real, (bits,), number) && #[trigger] call_ensures(
            read_real,
            (word,),
            given,
        ) && word@ == word_of(CmdView::Literal(LiteralType::NumF(bits)), number@) ==> given
            == Some(bits)
}

/// Parsing what was formatted gives the commands back, real literals and
/// all, with a writer and a reader of real numbers that go together: the
/// writer gives words that are taken for real numbers, and the reader makes
/// of each the number that was written. Where `text` was written for
/// commands that are `writable`, every outcome of reading `text` is a list
/// of as many commands, each equal to the one written.
pub proof fn lemma_round_trip<W: Fn(u64) -> String, R: Fn(&str) -> Option<u64>>(
    show_real: W,
    read_real: R,
    cmds: Seq<Cmd>,
    shown: Seq<Seq<char>>,
    text: Seq<char>,
    reals: Seq<Option<u64>>,
    res: Result<Vec<Cmd>, ParseError<'_>>,
)
    requires
        writes_real_words(show_real),
        reads_what_is_written(show_real, read_real),
        writes(show_real, cmds, shown, text),
        reads(read_real, text, reals, res),
        forall|i: int| 0 <= i < cmds.len() ==> writable(#[trigger] cmds[i]),
    ensures
        res is Ok,
        res->Ok_0.len() == cmds.len(),
        forall|i: int| 0 <= i < cmds.len() ==> (#[trigger] res->Ok_0[i])@ == cmds[i]@,
{
    let written = words_of(cmds, shown);
    assert forall|i: int| 0 <= i < written.len() implies (#[trigger] written[i]).len() > 0
        && spaceless(written[i]) by {
        assert(writable(cmds[i]));
        assert(shown_by(show_real, cmds[i], shown[i]));
        if !(cmds[i] is Literal && cmds[i]->Literal_0 is NumF) {
            lemma_word_reads_back(cmds[i], Seq::empty(), None);
            assert(word_of(cmds[i]@, shown[i]) == word_of(cmds[i]@, Seq::empty()));
        }
    }
    lemma_words_of_joined(written);
    let ws = words(text);
    let asked = match res {
        Ok(_) => ws.len() as int,
        Err(ParseError::BadArr(_, at)) => at + 1,
        Err(ParseError::UnknownToken(_, at)) => at + 1,
    };
    assert forall|i: int| 0 <= i < cmds.len() && i < asked implies word_cmd(ws[i], reals[i])
        == Ok::<CmdView, Fault>(cmds[i]@) by {
        assert(writable(cmds[i]));
        assert(shown_by(show_real, cmds[i], shown[i]));
        assert(given_by(read_real, ws[i], reals[i]));
        assert(ws[i] == word_of(cmds[i]@, shown[i]));
        lemma_word_reads_back(cmds[i], shown[i], reals[i]);
    }
    match res {
        Ok(back) => {
            assert forall|i: int| 0 <= i < cmds.len() implies (#[trigger] back[i])@ == cmds[i]@ by {
                assert(word_cmd(ws[i], reals[i]) == Ok::<CmdView, Fault>(back[i]@));
            }
        },
        Err(ParseError::BadArr(_, at)) => {
            assert(word_cmd(ws[at as int], reals[at as int]) == Ok::<CmdView, Fault>(
                cmds[at as int]@,
            ));
        },
        Err(ParseError::UnknownToken(_, at)) => {
            assert(word_cmd(ws[at as int], reals[at as int]) == Ok::<CmdView, Fault>(
                cmds[at as int]@,
            ));
        },
    }
}

} // verus!
