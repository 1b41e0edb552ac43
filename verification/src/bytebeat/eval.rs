use vstd::prelude::*;
use vstd::arithmetic::div_mod::lemma_fundamental_div_mod;
use vstd::arithmetic::div_mod::lemma_fundamental_div_mod_converse;
use crate::bytebeat::cmd::{BiFloatType, Cmd, CompType, LiteralType, TrigType, VarType};
use crate::bytebeat::compile::{admits, admits_all, compiles, depth, Program};
use crate::bytebeat::ieee::{bits_are_zero, is_zero};
use crate::bytebeat::value::{apply_int_op, int_op, Val};

verus! {

/// The seven values that an evaluation reads.
#[derive(Clone, Copy, Debug)]
pub struct Inputs {
    pub t: Val,
    pub mouse_x: Val,
    pub mouse_y: Val,
    pub screen_x: Val,
    pub screen_y: Val,
    pub key_x: Val,
    pub key_y: Val,
}

impl Inputs {
    /// The value of a variable.
    pub open spec fn of(self, var: VarType) -> Val {
        match var {
            VarType::Frame => self.t,
            VarType::MouseX => self.mouse_x,
            VarType::MouseY => self.mouse_y,
            VarType::ScreenX => self.screen_x,
            VarType::ScreenY => self.screen_y,
            VarType::KeyboardX => self.key_x,
            VarType::KeyboardY => self.key_y,
        }
    }

    pub fn get(&self, var: VarType) -> (val: Val)
        ensures
            val == self.of(var),
    {
        match var {
            VarType::Frame => self.t,
            VarType::MouseX => self.mouse_x,
            VarType::MouseY => self.mouse_y,
            VarType::ScreenX => self.screen_x,
            VarType::ScreenY => self.screen_y,
            VarType::KeyboardX => self.key_x,
            VarType::KeyboardY => self.key_y,
        }
    }
}

/// An operation on real numbers that this library does not compute itself:
/// it hands the operands out as bits and takes the result back as bits.
#[derive(Clone, Copy, Debug, PartialEq, Eq, Structural)]
pub enum RealOp {
    Trig(TrigType, u64),
    Bi(BiFloatType, u64, u64),
}

/// What `cmd` asks of the real arithmetic on the stack `s`: a trigonometric
/// operator asks for its function of the top value, a binary real operator
/// for its result on the two top values, but for a division or a modulo by
/// zero, which give zero without asking.
pub open spec fn request(cmd: Cmd, s: Seq<Val>) -> Option<RealOp> {
    match cmd {
        Cmd::Trig(op) => Some(RealOp::Trig(op, s[s.len() - 1].as_real())),
        Cmd::BiFloat(op) => {
            let a = s[s.len() - 2].as_real();
            let b = s[s.len() - 1].as_real();
            if (op == BiFloatType::DivF || op == BiFloatType::ModF) && is_zero(b) {
                None
            } else {
                Some(RealOp::Bi(op, a, b))
            }
        },
        _ => None,
    }
}

/// The stack after `cmd` has run on the stack `s`, where `answer` is what the
/// real arithmetic gave for the command's request.
///
/// For the operand order: of the values that an operator takes, the one
/// pushed first is its first operand.
pub open spec fn apply(cmd: Cmd, s: Seq<Val>, inputs: Inputs, answer: u64) -> Seq<Val> {
    let n = s.len() as int;
    match cmd {
        Cmd::Var(var) => s.push(inputs.of(var)),
        Cmd::Literal(LiteralType::NumF(y)) => s.push(Val::F(y)),
        Cmd::Literal(LiteralType::NumI(y)) => s.push(Val::I(y)),
        Cmd::Literal(LiteralType::Hex(y)) => s.push(Val::I(y)),
        Cmd::Bi(op) => s.take(n - 2).push(Val::I(int_op(op, s[n - 2].as_int(), s[n - 1].as_int()))),
        Cmd::Trig(_) => s.take(n - 1).push(Val::F(answer)),
        Cmd::BiFloat(_) => s.take(n - 2).push(
            Val::F(
                if request(cmd, s) is Some {
                    answer
                } else {
                    0
                },
            ),
        ),
        Cmd::Comp(op) => s.take(n - 2).push(Val::flag(Val::compare(op, s[n - 2], s[n - 1]))),
        Cmd::Cond => s.take(n - 3).push(
            if s[n - 1].truthy() {
                s[n - 3]
            } else {
                s[n - 2]
            },
        ),
        Cmd::Arr(size) => if size == 0 {
            s.push(Val::I(0))
        } else {
            let base = n - 1 - size;
            s.take(base).push(s[base + (s[n - 1].as_int() as int) % (size as int)])
        },
        Cmd::Meta(_, _) | Cmd::Comment(_) => s,
    }
}

/// The stack after the commands of `cmds` have run in order from an empty
/// stack, where `answers[i]` is what the real arithmetic gave for the request
/// of the command at `i`.
pub open spec fn run(cmds: Seq<Cmd>, inputs: Inputs, answers: Seq<u64>) -> Seq<Val>
    decreases cmds.len(),
{
    if cmds.len() == 0 {
        Seq::empty()
    } else {
        apply(
            cmds.last(),
            run(cmds.drop_last(), inputs, answers),
            inputs,
            answers[cmds.len() - 1],
        )
    }
}

/// `answers[index]` is a result that `unit` may give for the request of the
/// command at `index`.
pub open spec fn answered<U: Fn(RealOp) -> u64>(
    unit: U,
    cmds: Seq<Cmd>,
    inputs: Inputs,
    answers: Seq<u64>,
    index: int,
) -> bool {
    match request(cmds[index], run(cmds.take(index), inputs, answers)) {
        Some(op) => call_ensures(unit, (op,), answers[index]),
        None => true,
    }
}

/// An evaluation of `cmds` in which `unit` gave `answers` ends with `res` on
/// top of `rest`: there is an answer for each command, each is one that
/// `unit` may give to the request made at its place, and the run on these
/// answers leaves `rest` and then `res`.
pub open spec fn evaluates<U: Fn(RealOp) -> u64>(
    unit: U,
    cmds: Seq<Cmd>,
    inputs: Inputs,
    answers: Seq<u64>,
    res: Val,
    rest: Seq<Val>,
) -> bool {
    &&& answers.len() == cmds.len()
    &&& forall|i: int| 0 <= i < cmds.len() ==> answered(unit, cmds, inputs, answers, i)
    &&& run(cmds, inputs, answers).len() > 0
    &&& res == run(cmds, inputs, answers).last()
    &&& rest == run(cmds, inputs, answers).drop_last()
}

/// The number of arrays of size 0 in `cmds`: each leaves one value more
/// than its effect says.
pub open spec fn empty_arrays(cmds: Seq<Cmd>) -> int
    decreases cmds.len(),
{
    if cmds.len() == 0 {
        0
    } else {
        empty_arrays(cmds.drop_last()) + if cmds.last() == Cmd::Arr(0) {
            1int
        } else {
            0int
        }
    }
}

/// Only the answers at the trigonometric and the binary real operators
/// matter: where two lists of answers agree there, the runs agree.
pub proof fn lemma_run_agree(cmds: Seq<Cmd>, inputs: Inputs, a1: Seq<u64>, a2: Seq<u64>)
    requires
        forall|i: int|
            0 <= i < cmds.len() && (cmds[i] is Trig || cmds[i] is BiFloat) ==> a1[i] == a2[i],
    ensures
        run(cmds, inputs, a1) == run(cmds, inputs, a2),
    decreases cmds.len(),
{
    if cmds.len() > 0 {
        lemma_run_agree(cmds.drop_last(), inputs, a1, a2);
    }
}

/// An evaluation is determined by the program, the inputs and what the real
/// arithmetic answered: two evaluations that agree in these end with the
/// same result on the same stack. A program without trigonometric and
/// binary real operators asks for no answer, so its result is determined by
/// its inputs alone.
pub proof fn lemma_eval_determined<U: Fn(RealOp) -> u64>(
    unit: U,
    cmds: Seq<Cmd>,
    inputs: Inputs,
    a1: Seq<u64>,
    a2: Seq<u64>,
    res1: Val,
    res2: Val,
    rest1: Seq<Val>,
    rest2: Seq<Val>,
)
    requires
        evaluates(unit, cmds, inputs, a1, res1, rest1),
        evaluates(unit, cmds, inputs, a2, res2, rest2),
        forall|i: int|
            0 <= i < cmds.len() && (cmds[i] is Trig || cmds[i] is BiFloat) ==> a1[i] == a2[i],
    ensures
        res1 == res2,
        rest1 == rest2,
{
    lemma_run_agree(cmds, inputs, a1, a2);
}

/// The unit gives one result only for one operation.
pub open spec fn single_valued<U: Fn(RealOp) -> u64>(unit: U) -> bool {
    forall|op: RealOp, r1: u64, r2: u64|
        #[trigger] call_ensures(unit, (op,), r1) && #[trigger] call_ensures(unit, (op,), r2)
            ==> r1 == r2
}

/// With a unit that gives one result only for one operation, the runs of
/// the first `bound` commands agree for any two lists of answers that the
/// unit may have given.
pub proof fn lemma_runs_agree<U: Fn(RealOp) -> u64>(
    unit: U,
    cmds: Seq<Cmd>,
    inputs: Inputs,
    a1: Seq<u64>,
    a2: Seq<u64>,
    bound: int,
)
    requires
        single_valued(unit),
        0 <= bound <= cmds.len(),
        forall|i: int| 0 <= i < bound ==> answered(unit, cmds, inputs, a1, i),
        forall|i: int| 0 <= i < bound ==> answered(unit, cmds, inputs, a2, i),
    ensures
        run(cmds.take(bound), inputs, a1) == run(cmds.take(bound), inputs, a2),
    decreases bound,
{
    if bound > 0 {
        lemma_runs_agree(unit, cmds, inputs, a1, a2, bound - 1);
        assert(cmds.take(bound).drop_last() == cmds.take(bound - 1));
        assert(answered(unit, cmds, inputs, a1, bound - 1));
        assert(answered(unit, cmds, inputs, a2, bound - 1));
    }
}

/// Evaluation is deterministic as far as the real arithmetic is: with a
/// unit that gives one result only for one operation, any two evaluations
/// of one program on the same inputs end with the same result on the same
/// stack, bit for bit.
pub proof fn lemma_eval_deterministic<U: Fn(RealOp) -> u64>(
    unit: U,
    cmds: Seq<Cmd>,
    inputs: Inputs,
    a1: Seq<u64>,
    a2: Seq<u64>,
    res1: Val,
    res2: Val,
    rest1: Seq<Val>,
    rest2: Seq<Val>,
)
    requires
        single_valued(unit),
        evaluates(unit, cmds, inputs, a1, res1, rest1),
        evaluates(unit, cmds, inputs, a2, res2, rest2),
    ensures
        res1 == res2,
        rest1 == rest2,
{
    lemma_runs_agree(unit, cmds, inputs, a1, a2, cmds.len() as int);
    assert(cmds.take(cmds.len() as int) == cmds);
}

/// While every command finds its operands, the stack holds as many values as
/// the depth says, and one more for each array of size 0.
pub proof fn lemma_run_len(cmds: Seq<Cmd>, inputs: Inputs, answers: Seq<u64>, bound: int)
    requires
        0 <= bound <= cmds.len(),
        admits_all(cmds, bound),
    ensures
        run(cmds.take(bound), inputs, answers).len() == depth(cmds.take(bound)) + empty_arrays(
            cmds.take(bound),
        ),
        empty_arrays(cmds.take(bound)) >= 0,
    decreases bound,
{
    if bound > 0 {
        lemma_run_len(cmds, inputs, answers, bound - 1);
        assert(cmds.take(bound).drop_last() == cmds.take(bound - 1));
        assert(admits(cmds, bound - 1));
    }
}

/// A program's run leaves its result, and below it one value for each
/// array of size 0: nothing, where the program holds none.
pub proof fn lemma_run_leaves_result(cmds: Seq<Cmd>, inputs: Inputs, answers: Seq<u64>)
    requires
        compiles(cmds),
    ensures
        run(cmds, inputs, answers).len() == 1 + empty_arrays(cmds),
        empty_arrays(cmds) >= 0,
{
    lemma_run_len(cmds, inputs, answers, cmds.len() as int);
    assert(cmds.take(cmds.len() as int) == cmds);
}

/// `index` modulo `size`, from 0 up to `size`, also for a negative `index`.
pub fn wrap_index(index: i64, size: usize) -> (i: usize)
    requires
        size > 0,
    ensures
        i == (index as int) % (size as int),
        i < size,
{
    if index >= 0 {
        ((index as u64) % (size as u64)) as usize
    } else {
        let k = (-(index + 1)) as u64;
        let m = k % (size as u64);
        proof {
            let q = (k as int) / (size as int);
            lemma_fundamental_div_mod(k as int, size as int);
            assert((size as int) * q == q * (size as int)) by (nonlinear_arith);
            assert((-(q + 1)) * (size as int) == -(q * (size as int)) - size) by (nonlinear_arith);
            lemma_fundamental_div_mod_converse(
                index as int,
                size as int,
                -(q + 1),
                size - 1 - m,
            );
        }
        size - 1 - (m as usize)
    }
}

/// What `cmd` asks of the real arithmetic on this stack: `request`.
pub fn pending(stack: &Vec<Val>, cmd: &Cmd) -> (req: Option<RealOp>)
    requires
        stack.len() >= cmd.needs(),
    ensures
        req == request(*cmd, stack@),
{
    let n = stack.len();
    match cmd {
        Cmd::Trig(op) => Some(RealOp::Trig(*op, stack[n - 1].to_real())),
        Cmd::BiFloat(op) => {
            let a = stack[n - 2].to_real();
            let b = stack[n - 1].to_real();
            let guarded = match op {
                BiFloatType::DivF | BiFloatType::ModF => true,
                _ => false,
            };
            if guarded && bits_are_zero(b) {
                None
            } else {
                Some(RealOp::Bi(*op, a, b))
            }
        },
        _ => None,
    }
}

/// Takes the top value from the stack.
fn pop(stack: &mut Vec<Val>) -> (top: Val)
    requires
        old(stack).len() > 0,
    ensures
        top == old(stack)@.last(),
        final(stack)@ == old(stack)@.drop_last(),
{
    stack.pop().unwrap()
}

/// Runs one command on the stack: `apply`. `answer` is what the real
/// arithmetic gave for the command's request; it is not read where the
/// command makes none.
pub fn apply_cmd(stack: &mut Vec<Val>, cmd: &Cmd, inputs: &Inputs, answer: u64)
    requires
        old(stack).len() >= cmd.needs(),
    ensures
        final(stack)@ == apply(*cmd, old(stack)@, *inputs, answer),
{
    match cmd {
        Cmd::Var(var) => stack.push(inputs.get(*var)),
        Cmd::Literal(LiteralType::NumF(y)) => stack.push(Val::F(*y)),
        Cmd::Literal(LiteralType::NumI(y)) => stack.push(Val::I(*y)),
        Cmd::Literal(LiteralType::Hex(y)) => stack.push(Val::I(*y)),
        Cmd::Bi(op) => {
            let b = pop(stack).to_int();
            let a = pop(stack).to_int();
            stack.push(Val::I(apply_int_op(*op, a, b)));
        },
        Cmd::Trig(_) => {
            let _ = pop(stack);
            stack.push(Val::F(answer));
        },
        Cmd::BiFloat(_) => {
            let asked = pending(stack, cmd).is_some();
            let _ = pop(stack);
            let _ = pop(stack);
            stack.push(Val::F(if asked { answer } else { 0 }));
        },
        Cmd::Comp(op) => {
            let b = pop(stack);
            let a = pop(stack);
            let outcome = match op {
                CompType::Lt => a.is_less(b),
                CompType::Gt => b.is_less(a),
                CompType::Leq => a.is_less(b) || a.is_level(b),
                CompType::Geq => b.is_less(a) || a.is_level(b),
                CompType::Eq => a.is_same(b),
                CompType::Neq => !a.is_same(b),
            };
            stack.push(Val::from_bool(outcome));
        },
        Cmd::Cond => {
            let cond = pop(stack).to_bool();
            let b = pop(stack);
            let a = pop(stack);
            stack.push(if cond { a } else { b });
        },
        Cmd::Arr(size) => {
            if *size == 0 {
                stack.push(Val::I(0));
            } else {
                let index = pop(stack).to_int();
                // We want to split off from the end, so we must subtract here.
                let split_index = stack.len() - *size;
                let group = stack.split_off(split_index);
                let chosen = group[wrap_index(index, *size)];
                stack.push(chosen);
            }
        },
        // These have no runtime effect
        Cmd::Meta(_, _) | Cmd::Comment(_) => {},
    }
}

/// Evaluates a program on the given inputs and returns the value that its
/// run leaves on top. `stack` is working space: what it held is cleared, and
/// it is left holding what the run left below the result.
///
/// The library does no arithmetic on real numbers. Where a command asks for
/// some (`request`), `unit` is called with the operation and its result is
/// taken as the bits of the answer. The result of the evaluation is
/// therefore stated for the answers that `unit` gave: it is that of `run` on
/// some list of answers, each of them one that `unit` may give to the
/// request made at its place.
pub fn eval_beat<U: Fn(RealOp) -> u64>(
    stack: &mut Vec<Val>,
    program: &Program,
    t: Val,
    mouse_x: Val,
    mouse_y: Val,
    screen_x: Val,
    screen_y: Val,
    key_x: Val,
    key_y: Val,
    unit: &U,
) -> (res: Val)
    requires
        forall|op: RealOp| call_requires(*unit, (op,)),
    ensures
        exists|answers: Seq<u64>|
            evaluates(
                *unit,
                program.code(),
                (Inputs { t, mouse_x, mouse_y, screen_x, screen_y, key_x, key_y }),
                answers,
                res,
                final(stack)@,
            ),
{
    let inputs = Inputs { t, mouse_x, mouse_y, screen_x, screen_y, key_x, key_y };
    let cmds = program.cmds();
    // Clear the stack, we don't actually care about the contents of it.
    stack.clear();
    let ghost mut answers: Seq<u64> = Seq::empty();
    let mut i: usize = 0;
    while i < cmds.len()
        invariant
            i <= cmds.len(),
            compiles(cmds@),
            answers.len() == i,
            stack@ == run(cmds@.take(i as int), inputs, answers),
            forall|j: int| 0 <= j < i ==> answered(*unit, cmds@, inputs, answers, j),
            forall|op: RealOp| call_requires(*unit, (op,)),
        decreases cmds.len() - i,
    {
        let cmd = &cmds[i];
        proof {
            lemma_run_len(cmds@, inputs, answers, i as int);
            assert(admits(cmds@, i as int));
        }
        let answer = match pending(stack, cmd) {
            Some(op) => unit(op),
            None => 0,
        };
        let ghost before = answers;
        proof {
            answers = answers.push(answer);
            assert(cmds@.take(i + 1).drop_last() == cmds@.take(i as int));
            lemma_run_agree(cmds@.take(i as int), inputs, before, answers);
            assert forall|j: int| 0 <= j < i + 1 implies answered(
                *unit,
                cmds@,
                inputs,
                answers,
                j,
            ) by {
                lemma_run_agree(cmds@.take(j), inputs, before, answers);
                if j < i {
                    assert(answered(*unit, cmds@, inputs, before, j));
                }
            }
        }
        apply_cmd(stack, cmd, &inputs, answer);
        i += 1;
    }
    proof {
        assert(cmds@.take(i as int) == cmds@);
        lemma_run_leaves_result(cmds@, inputs, answers);
    }
    let res = pop(stack);
    assert(evaluates(*unit, program.code(), inputs, answers, res, stack@));
    res
}

} // verus!
