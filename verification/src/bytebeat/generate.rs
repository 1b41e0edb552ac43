use rand::rngs::StdRng;
use vstd::prelude::*;
use crate::bytebeat::cmd::{BiFloatType, BiType, Cmd, CompType, LiteralType, TrigType, VarType};
use crate::bytebeat::compile::{admits, admits_all, compile, compiles, depth, Program};
use crate::random::{any_i64, any_u64, chance, pick};

verus! {

/// A variable drawn evenly from the seven. Each of them can come out:
/// which one does is the generator's.
pub fn random_var(rng: &mut StdRng) -> VarType {
    let all: Vec<VarType> = vec![
        VarType::Frame,
        VarType::MouseX,
        VarType::MouseY,
        VarType::ScreenX,
        VarType::ScreenY,
        VarType::KeyboardX,
        VarType::KeyboardY,
    ];
    pick(all.as_slice(), rng)
}

/// A binary integer operator drawn evenly from the ten. Each of them can
/// come out: which one does is the generator's.
pub fn random_bi(rng: &mut StdRng) -> BiType {
    let all: Vec<BiType> = vec![
        BiType::Add,
        BiType::Sub,
        BiType::Mul,
        BiType::Div,
        BiType::Mod,
        BiType::Shl,
        BiType::Shr,
        BiType::And,
        BiType::Orr,
        BiType::Xor,
    ];
    pick(all.as_slice(), rng)
}

/// A trigonometric operator drawn evenly from the three. Each of them can
/// come out: which one does is the generator's.
pub fn random_trig(rng: &mut StdRng) -> TrigType {
    let all: Vec<TrigType> = vec![TrigType::Sin, TrigType::Cos, TrigType::Tan];
    pick(all.as_slice(), rng)
}

/// A binary real operator drawn evenly from the six. Each of them can come
/// out: which one does is the generator's.
pub fn random_bifloat(rng: &mut StdRng) -> BiFloatType {
    let all: Vec<BiFloatType> = vec![
        BiFloatType::Pow,
        BiFloatType::AddF,
        BiFloatType::SubF,
        BiFloatType::MulF,
        BiFloatType::DivF,
        BiFloatType::ModF,
    ];
    pick(all.as_slice(), rng)
}

/// A comparison drawn evenly from the six. Each of them can come out:
/// which one does is the generator's.
pub fn random_comp(rng: &mut StdRng) -> CompType {
    let all: Vec<CompType> = vec![
        CompType::Lt,
        CompType::Gt,
        CompType::Leq,
        CompType::Geq,
        CompType::Eq,
        CompType::Neq,
    ];
    pick(all.as_slice(), rng)
}

/// A literal of a kind drawn evenly from the three: a real number from 0 up
/// to 1, any integer, or any integer in hexadecimal.
///
/// The library makes no real numbers. For the real literal 64 bits are
/// drawn and handed to `unit_real`, whose result is taken as the bits of
/// the number that the generator makes of them. Of an integer nothing holds
/// but that it was drawn.
pub fn random_literal<D: Fn(u64) -> u64>(rng: &mut StdRng, unit_real: &D) -> (literal:
    LiteralType)
    requires
        forall|drawn: u64| call_requires(*unit_real, (drawn,)),
    ensures
        match literal {
            LiteralType::NumF(bits) => exists|drawn: u64|
                call_ensures(*unit_real, (drawn,), bits),
            _ => true,
        },
{
    let drawn: u64 = any_u64(rng);
    let fraction: u64 = unit_real(drawn);
    let whole: i64 = any_i64(rng);
    let hex: i64 = any_i64(rng);
    let all: Vec<LiteralType> = vec![
        LiteralType::NumF(fraction),
        LiteralType::NumI(whole),
        LiteralType::Hex(hex),
    ];
    let literal = pick(all.as_slice(), rng);
    proof {
        // of the three only the first is a real literal
        let at = choose|at: int| 0 <= at < all@.len() && all@[at] == literal;
        assert(literal is NumF ==> at == 0);
        assert(literal is NumF ==> literal->NumF_0 == fraction);
        assert(exists|d: u64| call_ensures(*unit_real, (d,), fraction));
    }
    literal
}

/// What random programs are made of: a variable or a binary integer
/// operator.
#[derive(Clone, Copy)]
enum Piece {
    Var(VarType),
    Bi(BiType),
}

/// The seven variables, where `vars` is set, then the ten binary integer
/// operators, where `ops` is set.
fn pieces(vars: bool, ops: bool) -> (all: Vec<Piece>)
    requires
        vars || ops,
    ensures
        all.len() > 0,
        forall|p: Piece| all@.contains(p) ==> (p is Var ==> vars) && (p is Bi ==> ops),
{
    let mut all: Vec<Piece> = Vec::new();
    if vars {
        all.push(Piece::Var(VarType::Frame));
        all.push(Piece::Var(VarType::MouseX));
        all.push(Piece::Var(VarType::MouseY));
        all.push(Piece::Var(VarType::ScreenX));
        all.push(Piece::Var(VarType::ScreenY));
        all.push(Piece::Var(VarType::KeyboardX));
        all.push(Piece::Var(VarType::KeyboardY));
    }
    if ops {
        all.push(Piece::Bi(BiType::Add));
        all.push(Piece::Bi(BiType::Sub));
        all.push(Piece::Bi(BiType::Mul));
        all.push(Piece::Bi(BiType::Div));
        all.push(Piece::Bi(BiType::Mod));
        all.push(Piece::Bi(BiType::Shr));
        all.push(Piece::Bi(BiType::Shl));
        all.push(Piece::Bi(BiType::And));
        all.push(Piece::Bi(BiType::Orr));
        all.push(Piece::Bi(BiType::Xor));
    }
    all
}

/// Two commands of one family: two variables, two literals, two operators
/// of one kind or two comparisons; any other command has only itself.
pub open spec fn same_family(a: Cmd, b: Cmd) -> bool {
    match (a, b) {
        (Cmd::Var(_), Cmd::Var(_)) => true,
        (Cmd::Literal(_), Cmd::Literal(_)) => true,
        (Cmd::Bi(_), Cmd::Bi(_)) => true,
        (Cmd::Trig(_), Cmd::Trig(_)) => true,
        (Cmd::BiFloat(_), Cmd::BiFloat(_)) => true,
        (Cmd::Comp(_), Cmd::Comp(_)) => true,
        _ => a@ == b@,
    }
}

/// A command that mutation can change: a variable, a literal, an operator
/// or a comparison.
pub open spec fn mutable(cmd: Cmd) -> bool {
    !(cmd is Cond || cmd is Arr || cmd is Meta || cmd is Comment)
}

/// Whether mutation can change every command of the program.
pub fn can_mutate(program: &Program) -> (can: bool)
    ensures
        can == forall|i: int|
            0 <= i < program.code().len() ==> mutable(#[trigger] program.code()[i]),
{
    let cmds = program.cmds();
    let mut i: usize = 0;
    while i < cmds.len()
        invariant
            i <= cmds.len(),
            cmds@ == program.code(),
            forall|k: int| 0 <= k < i ==> mutable(#[trigger] cmds@[k]),
        decreases cmds.len() - i,
    {
        match &cmds[i] {
            Cmd::Cond | Cmd::Arr(_) | Cmd::Meta(_, _) | Cmd::Comment(_) => {
                return false;
            },
            _ => {},
        }
        i += 1;
    }
    true
}

/// A change of commands within their families.
pub open spec fn is_mutation(from: Seq<Cmd>, to: Seq<Cmd>) -> bool {
    &&& to.len() == from.len()
    &&& forall|i: int| 0 <= i < from.len() ==> same_family(from[i], #[trigger] to[i])
}

/// A change within the families leaves every depth as it was.
pub proof fn lemma_mutation_keeps_depth(from: Seq<Cmd>, to: Seq<Cmd>, k: int)
    requires
        is_mutation(from, to),
        0 <= k <= from.len(),
    ensures
        depth(to.take(k)) == depth(from.take(k)),
    decreases k,
{
    if k > 0 {
        lemma_mutation_keeps_depth(from, to, k - 1);
        assert(to.take(k).drop_last() == to.take(k - 1));
        assert(from.take(k).drop_last() == from.take(k - 1));
    }
}

/// A program changed within the families of its commands compiles.
pub proof fn lemma_mutation_compiles(from: Seq<Cmd>, to: Seq<Cmd>)
    requires
        is_mutation(from, to),
        compiles(from),
    ensures
        compiles(to),
{
    assert forall|i: int| 0 <= i < to.len() implies admits(to, i) by {
        lemma_mutation_keeps_depth(from, to, i);
        assert(admits(from, i));
    }
    lemma_mutation_keeps_depth(from, to, from.len() as int);
    assert(to.take(to.len() as int) == to);
    assert(from.take(from.len() as int) == from);
}

/// A stretch of binary operators takes one from the depth for each: where
/// every command of `cmds` from `from` on is a binary integer operator, the
/// depth of `cmds` is that of its first `from` commands less the number of
/// the others.
pub proof fn lemma_operator_tail(cmds: Seq<Cmd>, from: int)
    requires
        0 <= from <= cmds.len(),
        forall|i: int| from <= i < cmds.len() ==> cmds[i] is Bi,
    ensures
        depth(cmds) == depth(cmds.take(from)) - (cmds.len() - from),
    decreases cmds.len() - from,
{
    if from < cmds.len() {
        assert(cmds.drop_last().take(from) == cmds.take(from));
        lemma_operator_tail(cmds.drop_last(), from);
    } else {
        assert(cmds.take(from) == cmds);
    }
}

/// Compiles commands that are known to compile.
fn compiled(cmds: Vec<Cmd>) -> (program: Program)
    requires
        compiles(cmds@),
    ensures
        program.code() == cmds@,
{
    compile(cmds).unwrap()
}

/// A random program of at least `length` commands, and of at least one,
/// made of variables and binary integer operators, that leaves one value.
///
/// Each command is drawn evenly from those that may stand next: an operator
/// only where it finds two operands, and once `length` is reached no
/// variable, so that the depth comes down to 1. Every command from `length`
/// on is therefore an operator, and there is one for each value that the
/// first `length` commands leave above the result.
///
/// A program has a command: for a `length` of 0 it is one variable.
pub fn random_beat(length: usize, rng: &mut StdRng) -> (program: Program)
    ensures
        compiles(program.code()),
        program.code().len() >= length,
        program.code().len() >= 1,
        depth(program.code()) == 1,
        forall|i: int|
            0 <= i < program.code().len() ==> program.code()[i] is Var || program.code()[i] is Bi,
        forall|i: int|
            length <= i < program.code().len() && 1 <= i ==> program.code()[i] is Bi,
        program.code().len() == if length == 0 {
            1
        } else {
            length + depth(program.code().take(length as int)) - 1
        },
{
    let mut program: Vec<Cmd> = Vec::with_capacity(length);
    let mut stack_size: usize = 0;

    // force programs to end with one single value
    while program.len() < length || stack_size != 1
        invariant
            stack_size == depth(program@),
            stack_size <= program.len(),
            admits_all(program@, program.len() as int),
            program.len() > 0 ==> stack_size >= 1,
            forall|i: int| 0 <= i < program@.len() ==> program@[i] is Var || program@[i] is Bi,
            forall|i: int| length <= i < program@.len() && 1 <= i ==> program@[i] is Bi,
        decreases
                (if program.len() < length {
                    length - program.len()
                } else {
                    0
                }),
                (if stack_size == 0 {
                    1
                } else {
                    stack_size - 1
                }),
    {
        let ghost before = program@;
        // An operator must find two operands; past the goal length only
        // what pops is wanted.
        let ops = stack_size >= 2;
        let vars = program.len() < length || !ops;
        let all = pieces(vars, ops);
        let cmd = match pick(all.as_slice(), rng) {
            Piece::Var(var) => Cmd::Var(var),
            Piece::Bi(op) => Cmd::Bi(op),
        };
        if ops && !vars {
            stack_size -= 1;
        } else {
            match cmd {
                Cmd::Bi(_) => {
                    stack_size -= 1;
                },
                _ => {
                    stack_size += 1;
                },
            }
        }
        program.push(cmd);
        proof {
            assert(program@.drop_last() == before);
            assert forall|i: int| 0 <= i < program@.len() implies admits(program@, i) by {
                if i < before.len() {
                    assert(admits(before, i));
                    assert(program@.take(i) == before.take(i));
                }
            }
        }
    }

    proof {
        let from: int = if length == 0 { 1 } else { length as int };
        lemma_operator_tail(program@, from);
        if length == 0 {
            assert(admits(program@, 0));
            assert(program@.take(0) == Seq::<Cmd>::empty());
            assert(program@.take(1).drop_last() == program@.take(0));
        }
    }
    compiled(program)
}

/// A command drawn evenly from the family of `cmd`: a variable for a
/// variable, a literal for a literal, an operator for an operator of its
/// kind, a comparison for a comparison. `unit_real` makes the real number
/// of a literal, as in `random_literal`.
pub fn draw_like<D: Fn(u64) -> u64>(cmd: &Cmd, rng: &mut StdRng, unit_real: &D) -> (drawn: Cmd)
    requires
        mutable(*cmd),
        forall|drawn: u64| call_requires(*unit_real, (drawn,)),
    ensures
        mutable(drawn),
        same_family(*cmd, drawn),
{
    match cmd {
        Cmd::Var(_) => Cmd::Var(random_var(rng)),
        Cmd::Literal(_) => Cmd::Literal(random_literal(rng, unit_real)),
        Cmd::Bi(_) => Cmd::Bi(random_bi(rng)),
        Cmd::Trig(_) => Cmd::Trig(random_trig(rng)),
        Cmd::BiFloat(_) => Cmd::BiFloat(random_bifloat(rng)),
        Cmd::Comp(_) => Cmd::Comp(random_comp(rng)),
        // nothing else is mutable
        _ => cmd.duplicate(),
    }
}

/// What mutation puts in the place of `cmd`, where `hit` says that the
/// chance fell on this place and `drawn` is the command that was drawn for
/// it: the drawn one where the chance fell, and `cmd` itself where it did
/// not. Nothing need be drawn for a place that keeps its command.
pub fn mutated(cmd: &Cmd, hit: bool, drawn: Option<Cmd>) -> (out: Cmd)
    requires
        hit ==> mutable(*cmd) && (drawn matches Some(d) && same_family(*cmd, d)),
    ensures
        out@ == if hit {
            drawn->Some_0@
        } else {
            cmd@
        },
        same_family(*cmd, out),
{
    if hit {
        drawn.unwrap()
    } else {
        cmd.duplicate()
    }
}

/// Randomly alter a program. Each command has a chance of
/// `chance_numerator` in `chance_denominator` of being changed to another
/// command of its family: an addition may become a subtraction, but never a
/// comparison. With a chance of zero nothing changes.
///
/// A conditional, an array, an annotation or a comment has no family to
/// draw from: unless the chance is zero the program must hold none.
///
/// For each place the chance is tried, a command is drawn where the chance
/// fell, and `mutated` says what comes of the two. `unit_real` makes the
/// real number of a literal that is drawn, as in `random_literal`.
pub fn mutate<D: Fn(u64) -> u64>(
    program: &Program,
    chance_numerator: u32,
    chance_denominator: u32,
    rng: &mut StdRng,
    unit_real: &D,
) -> (mutant: Program)
    requires
        chance_numerator == 0 || forall|i: int|
            0 <= i < program.code().len() ==> mutable(#[trigger] program.code()[i]),
        forall|drawn: u64| call_requires(*unit_real, (drawn,)),
    ensures
        compiles(mutant.code()),
        is_mutation(program.code(), mutant.code()),
        chance_numerator == 0 ==> forall|i: int|
            0 <= i < program.code().len() ==> mutant.code()[i]@ == program.code()[i]@,
{
    let parent = program.cmds();
    let mut cmds: Vec<Cmd> = Vec::with_capacity(parent.len());
    let mut i: usize = 0;
    while i < parent.len()
        invariant
            i <= parent.len(),
            cmds.len() == i,
            chance_numerator == 0 || forall|k: int|
                0 <= k < parent@.len() ==> mutable(#[trigger] parent@[k]),
            forall|k: int| 0 <= k < i ==> same_family(parent@[k], #[trigger] cmds@[k]),
            chance_numerator == 0 ==> forall|k: int| 0 <= k < i ==> cmds@[k]@ == parent@[k]@,
            forall|drawn: u64| call_requires(*unit_real, (drawn,)),
        decreases parent.len() - i,
    {
        let cmd = &parent[i];
        let hit = chance(rng, chance_numerator, chance_denominator);
        let drawn = if hit {
            assert(mutable(parent@[i as int]));
            Some(draw_like(cmd, rng, unit_real))
        } else {
            None
        };
        let changed = mutated(cmd, hit, drawn);
        cmds.push(changed);
        i += 1;
    }
    proof {
        lemma_mutation_compiles(parent@, cmds@);
    }
    compiled(cmds)
}

} // verus!
