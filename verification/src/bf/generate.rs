use rand::rngs::StdRng;
use vstd::prelude::*;
use crate::bf::program::{
    balance, lemma_balance_bound, lemma_never_negative_push, never_negative, well_nested, BFChar,
    Program,
};
use crate::random::{chance, pick};

verus! {

/// What mutation may put in the place of an instruction: for one that
/// opens or closes a loop only itself, for any other one any other.
pub open spec fn may_become(from: BFChar, to: BFChar) -> bool {
    if from.is_loop() {
        to == from
    } else {
        !to.is_loop()
    }
}

/// A change of instructions that mutation may make: the instructions that
/// open and close loops stay, and every other instruction stays another.
pub open spec fn is_mutation(from: Seq<BFChar>, to: Seq<BFChar>) -> bool {
    &&& to.len() == from.len()
    &&& forall|i: int| 0 <= i < from.len() ==> may_become(from[i], #[trigger] to[i])
}

/// A mutation leaves every balance as it was.
pub proof fn lemma_mutation_keeps_balance(from: Seq<BFChar>, to: Seq<BFChar>, k: int)
    requires
        is_mutation(from, to),
        0 <= k <= from.len(),
    ensures
        balance(to.take(k)) == balance(from.take(k)),
    decreases k,
{
    if k > 0 {
        lemma_mutation_keeps_balance(from, to, k - 1);
        assert(to.take(k).drop_last() == to.take(k - 1));
        assert(from.take(k).drop_last() == from.take(k - 1));
    }
}

/// A mutation of a program whose loops nest is a program whose loops nest.
pub proof fn lemma_mutation_stays_valid(from: Seq<BFChar>, to: Seq<BFChar>)
    requires
        is_mutation(from, to),
        well_nested(from),
    ensures
        well_nested(to),
{
    assert forall|k: int| 0 <= k <= to.len() implies balance(#[trigger] to.take(k)) >= 0 by {
        lemma_mutation_keeps_balance(from, to, k);
    }
    lemma_mutation_keeps_balance(from, to, from.len() as int);
    assert(to.take(to.len() as int) == to);
    assert(from.take(from.len() as int) == from);
}

/// A stretch of instructions that close loops takes one from the balance
/// for each: where every instruction of `s` from `from` on closes a loop,
/// the balance of `s` is that of its first `from` instructions less the
/// number of the others.
pub proof fn lemma_closing_tail(s: Seq<BFChar>, from: int)
    requires
        0 <= from <= s.len(),
        forall|i: int| from <= i < s.len() ==> s[i] == BFChar::EndLoop,
    ensures
        balance(s) == balance(s.take(from)) - (s.len() - from),
    decreases s.len() - from,
{
    if from < s.len() {
        assert(s.drop_last().take(from) == s.take(from));
        lemma_closing_tail(s.drop_last(), from);
    } else {
        assert(s.take(from) == s);
    }
}

/// The instructions that random programs are made of: all but the last two
/// where `with_io` is false.
pub fn alphabet(with_io: bool, with_end: bool) -> (choices: Vec<BFChar>)
    ensures
        choices.len() > 0,
        forall|c: BFChar|
            choices@.contains(c) <==> {
                &&& c == BFChar::EndLoop ==> with_end
                &&& c == BFChar::Input || c == BFChar::Output ==> with_io
            },
{
    let mut choices: Vec<BFChar> = vec![
        BFChar::Plus,
        BFChar::Minus,
        BFChar::Left,
        BFChar::Right,
        BFChar::StartLoop,
    ];
    if with_end {
        choices.push(BFChar::EndLoop);
    }
    if with_io {
        choices.push(BFChar::Input);
        choices.push(BFChar::Output);
    }
    proof {
        let s = choices@;
        assert(s[0] == BFChar::Plus && s[1] == BFChar::Minus && s[2] == BFChar::Left && s[3]
            == BFChar::Right && s[4] == BFChar::StartLoop);
        if with_end {
            assert(s[5] == BFChar::EndLoop);
            if with_io {
                assert(s[6] == BFChar::Input && s[7] == BFChar::Output);
            }
        }
    }
    choices
}

/// A random program of at least `length` instructions whose loops nest,
/// made of the six instructions that do no input or output, and of all
/// eight where `with_io` is set.
///
/// Each instruction is drawn evenly from those that may stand next: one
/// that closes a loop only where a loop is open. Once `length` is reached
/// the open loops are closed and nothing else is added: every instruction
/// from `length` on closes a loop, and there are as many of them as the
/// first `length` instructions leave loops open.
pub fn random_bf_with(length: usize, with_io: bool, rng: &mut StdRng) -> (program: Program)
    ensures
        program@.len() >= length,
        well_nested(program@),
        forall|i: int| length <= i < program@.len() ==> program@[i] == BFChar::EndLoop,
        program@.len() == length + balance(program@.take(length as int)),
        !with_io ==> forall|i: int|
            0 <= i < program@.len() ==> program@[i] != BFChar::Input && program@[i]
                != BFChar::Output,
{
    let mut program: Vec<BFChar> = Vec::with_capacity(length.saturating_add(2));
    let mut num_open_braces: usize = 0;
    let choices = alphabet(with_io, true);
    let openers = alphabet(with_io, false);

    while program.len() < length || num_open_braces != 0
        invariant
            num_open_braces == balance(program@),
            never_negative(program@),
            forall|i: int| length <= i < program@.len() ==> program@[i] == BFChar::EndLoop,
            choices.len() > 0,
            openers.len() > 0,
            forall|c: BFChar|
                choices@.contains(c) ==> (c == BFChar::Input || c == BFChar::Output ==> with_io),
            forall|c: BFChar|
                openers@.contains(c) ==> c != BFChar::EndLoop && (c == BFChar::Input || c
                    == BFChar::Output ==> with_io),
            !with_io ==> forall|i: int|
                0 <= i < program@.len() ==> program@[i] != BFChar::Input && program@[i]
                    != BFChar::Output,
        decreases
                (if program.len() < length {
                    length - program.len()
                } else {
                    0
                }),
                num_open_braces,
    {
        proof {
            lemma_balance_bound(program@);
        }
        // Avoid adding an end loop if there is no matching start loop
        let mut bf_char = if num_open_braces == 0 {
            pick(openers.as_slice(), rng)
        } else {
            pick(choices.as_slice(), rng)
        };

        // Avoid adding other characters if we run out of length
        if program.len() >= length {
            bf_char = BFChar::EndLoop;
        }
        proof {
            lemma_never_negative_push(program@, bf_char);
            assert(program@.push(bf_char).drop_last() == program@);
        }

        if bf_char == BFChar::StartLoop {
            num_open_braces += 1;
        } else if bf_char == BFChar::EndLoop {
            num_open_braces -= 1;
        }

        program.push(bf_char);
    }

    // Close what is still open.
    while num_open_braces > 0
        invariant
            num_open_braces == balance(program@),
            never_negative(program@),
            program.len() >= length,
            forall|i: int| length <= i < program@.len() ==> program@[i] == BFChar::EndLoop,
            !with_io ==> forall|i: int|
                0 <= i < program@.len() ==> program@[i] != BFChar::Input && program@[i]
                    != BFChar::Output,
        decreases num_open_braces,
    {
        proof {
            lemma_never_negative_push(program@, BFChar::EndLoop);
            assert(program@.push(BFChar::EndLoop).drop_last() == program@);
        }
        program.push(BFChar::EndLoop);
        num_open_braces -= 1;
    }
    proof {
        lemma_closing_tail(program@, length as int);
    }
    Program::new(program).unwrap()
}

/// A random program of at least `length` instructions whose loops nest,
/// made of the six instructions that do no input or output. Every
/// instruction from `length` on closes a loop that the first `length` left
/// open, so a program of length 0 is empty.
pub fn random_bf(length: usize, rng: &mut StdRng) -> (program: Program)
    ensures
        program@.len() >= length,
        well_nested(program@),
        forall|i: int| length <= i < program@.len() ==> program@[i] == BFChar::EndLoop,
        program@.len() == length + balance(program@.take(length as int)),
        forall|i: int|
            0 <= i < program@.len() ==> program@[i] != BFChar::Input && program@[i]
                != BFChar::Output,
{
    random_bf_with(length, false, rng)
}

/// The six instructions that mutation draws from: all but those that open
/// and close loops.
pub fn family() -> (family: Vec<BFChar>)
    ensures
        family.len() > 0,
        forall|c: BFChar| family@.contains(c) <==> !c.is_loop(),
{
    let family: Vec<BFChar> = vec![
        BFChar::Plus,
        BFChar::Minus,
        BFChar::Left,
        BFChar::Right,
        BFChar::Input,
        BFChar::Output,
    ];
    proof {
        let s = family@;
        assert(s[0] == BFChar::Plus && s[1] == BFChar::Minus && s[2] == BFChar::Left && s[3]
            == BFChar::Right && s[4] == BFChar::Input && s[5] == BFChar::Output);
    }
    family
}

/// What mutation puts in the place of `instr`, where `hit` says that the
/// chance fell on this place and `drawn` is the instruction that was drawn
/// for it: the drawn one where the chance fell on an instruction that is
/// no part of a loop, and `instr` itself everywhere else. Nothing need be
/// drawn for a place that keeps its instruction.
pub fn mutated(instr: BFChar, hit: bool, drawn: Option<BFChar>) -> (out: BFChar)
    requires
        hit && !instr.is_loop() ==> (drawn matches Some(d) && !d.is_loop()),
    ensures
        out == if hit && !instr.is_loop() {
            drawn->Some_0
        } else {
            instr
        },
        may_become(instr, out),
{
    if hit {
        match instr {
            BFChar::StartLoop => BFChar::StartLoop,
            BFChar::EndLoop => BFChar::EndLoop,
            _ => drawn.unwrap(),
        }
    } else {
        instr
    }
}

/// Whether an instruction opens or closes a loop.
pub fn is_loop(instr: BFChar) -> (b: bool)
    ensures
        b == instr.is_loop(),
{
    match instr {
        BFChar::StartLoop | BFChar::EndLoop => true,
        _ => false,
    }
}

/// A mutation of `program`: each instruction is changed with a chance of
/// `chance_numerator` in `chance_denominator`. One that opens or closes a
/// loop stays what it is; any other becomes one of the six others, drawn
/// evenly. With a chance of zero nothing changes.
///
/// For each place the chance is tried, an instruction is drawn where one is
/// needed, and `mutated` says what comes of the two.
pub fn mutate(
    program: &Program,
    chance_numerator: u32,
    chance_denominator: u32,
    rng: &mut StdRng,
) -> (mutant: Program)
    ensures
        is_mutation(program@, mutant@),
        well_nested(mutant@),
        chance_numerator == 0 ==> mutant@ == program@,
{
    let parent = program.instrs();
    let family = family();
    let mut instrs: Vec<BFChar> = Vec::with_capacity(parent.len());
    let mut i: usize = 0;
    while i < parent.len()
        invariant
            i <= parent.len(),
            instrs.len() == i,
            family.len() > 0,
            forall|c: BFChar| family@.contains(c) <==> !c.is_loop(),
            forall|k: int| 0 <= k < i ==> may_become(parent@[k], #[trigger] instrs@[k]),
            chance_numerator == 0 ==> instrs@ == parent@.take(i as int),
        decreases parent.len() - i,
    {
        let instr = parent[i];
        let hit = chance(rng, chance_numerator, chance_denominator);
        let drawn = if hit && !is_loop(instr) {
            Some(pick(family.as_slice(), rng))
        } else {
            None
        };
        instrs.push(mutated(instr, hit, drawn));
        i += 1;
        assert(chance_numerator == 0 ==> instrs@ =~= parent@.take(i as int));
    }
    proof {
        lemma_mutation_stays_valid(parent@, instrs@);
    }
    Program::new(instrs).unwrap()
}

} // verus!
