use vstd::prelude::*;
use vstd::std_specs::iter::IteratorSpec;
use crate::bf::program::{
    is_pair, lemma_pair_unique_close, lemma_pair_unique_open, BFChar, Program,
};

verus! {

/// The number of steps after which a recorded execution stops.
pub const MAX_STEPS: usize = 10000;

/// The length of a fresh tape.
pub const INITAL_MEMORY: usize = 256;

/// The number of cells by which a growing tape grows.
pub const EXTEND_MEMORY_AMOUNT: usize = 64;

/// What happens to the tape pointer at the ends of the tape.
#[derive(Debug, Copy, Clone, PartialEq, Eq, Structural)]
pub enum MemoryBehavior {
    /// The pointer moves in a ring of the given size.
    Wrapping(usize),
    /// The pointer stops at 0 on the left, and the tape grows on the right.
    InfiniteRightwards,
}

/// The state of a run.
#[derive(Debug, Clone, PartialEq, Eq)]
pub struct BFState {
    pub program_pointer: usize,
    pub memory_pointer: usize,
    pub memory: Vec<i8>,
    pub memory_behavior: MemoryBehavior,
    pub output: Vec<i8>,
}

/// The state of a run as a mathematical value.
pub struct Machine {
    pub program_pointer: usize,
    pub memory_pointer: usize,
    pub memory: Seq<i8>,
    pub memory_behavior: MemoryBehavior,
    pub output: Seq<i8>,
}

/// `a + b` modulo `modulo`, from 0 up to `modulo`, also where the sum is
/// negative.
pub open spec fn ring_add(a: int, b: int, modulo: int) -> int {
    (a + b) % modulo
}

/// The partner of the loop instruction at `i`.
pub open spec fn partner(instrs: Seq<BFChar>, i: int) -> int {
    if instrs[i] == BFChar::StartLoop {
        choose|close: int| is_pair(instrs, i, close)
    } else {
        choose|open: int| is_pair(instrs, open, i)
    }
}

impl Machine {
    /// The state from which every run starts: a tape of 256 zeros in a ring,
    /// both pointers at 0, nothing written.
    pub open spec fn fresh() -> Machine {
        Machine {
            program_pointer: 0,
            memory_pointer: 0,
            memory: Seq::new(INITAL_MEMORY as nat, |i: int| 0i8),
            memory_behavior: MemoryBehavior::Wrapping(INITAL_MEMORY),
            output: Seq::empty(),
        }
    }

    /// The tape pointer is on the tape, and a ring is no longer than the
    /// tape and not empty.
    pub open spec fn wf(self) -> bool {
        &&& self.memory_pointer < self.memory.len()
        &&& match self.memory_behavior {
            MemoryBehavior::Wrapping(modulo) => 0 < modulo <= self.memory.len(),
            MemoryBehavior::InfiniteRightwards => true,
        }
    }

    /// The run is over: the program pointer is past the last instruction.
    pub open spec fn halted(self, instrs: Seq<BFChar>) -> bool {
        self.program_pointer >= instrs.len()
    }

    /// The cell under the tape pointer.
    pub open spec fn cell(self) -> i8 {
        self.memory[self.memory_pointer as int]
    }

    /// The state with the cell under the tape pointer set to `value`.
    pub open spec fn with_cell(self, value: i8) -> Machine {
        Machine { memory: self.memory.update(self.memory_pointer as int, value), ..self }
    }

    /// The state after the instruction under the program pointer has had its
    /// effect, before the program pointer goes on. `pulled` is what the
    /// input gave, `None` when it has run out; only `Input` reads it.
    pub open spec fn effect(self, instrs: Seq<BFChar>, pulled: Option<i8>) -> Machine {
        match instrs[self.program_pointer as int] {
            BFChar::Plus => self.with_cell(self.cell().wrapping_add(1)),
            BFChar::Minus => self.with_cell(self.cell().wrapping_sub(1)),
            BFChar::Left => match self.memory_behavior {
                MemoryBehavior::Wrapping(modulo) => Machine {
                    memory_pointer: ring_add(self.memory_pointer as int, -1, modulo as int) as usize,
                    ..self
                },
                MemoryBehavior::InfiniteRightwards => Machine {
                    memory_pointer: if self.memory_pointer == 0 {
                        0
                    } else {
                        (self.memory_pointer - 1) as usize
                    },
                    ..self
                },
            },
            BFChar::Right => match self.memory_behavior {
                MemoryBehavior::Wrapping(modulo) => Machine {
                    memory_pointer: ring_add(self.memory_pointer as int, 1, modulo as int) as usize,
                    ..self
                },
                MemoryBehavior::InfiniteRightwards => Machine {
                    memory_pointer: (self.memory_pointer + 1) as usize,
                    memory: if self.memory_pointer + 1 >= self.memory.len() {
                        self.memory + Seq::new(EXTEND_MEMORY_AMOUNT as nat, |i: int| 0i8)
                    } else {
                        self.memory
                    },
                    ..self
                },
            },
            BFChar::StartLoop => if self.cell() == 0 {
                Machine {
                    program_pointer: partner(instrs, self.program_pointer as int) as usize,
                    ..self
                }
            } else {
                self
            },
            BFChar::EndLoop => if self.cell() != 0 {
                Machine {
                    program_pointer: partner(instrs, self.program_pointer as int) as usize,
                    ..self
                }
            } else {
                self
            },
            BFChar::Input => self.with_cell(
                match pulled {
                    Some(x) => x,
                    None => 0,
                },
            ),
            BFChar::Output => Machine { output: self.output.push(self.cell()), ..self },
        }
    }

    /// The state after one step: the instruction's effect, then the program
    /// pointer goes on by one, from the partner where a loop jumped.
    pub open spec fn step(self, instrs: Seq<BFChar>, pulled: Option<i8>) -> Machine {
        let after = self.effect(instrs, pulled);
        Machine { program_pointer: (after.program_pointer + 1) as usize, ..after }
    }
}

/// The state before the entry at `k` of a recorded execution: the fresh
/// state, or the state that the entry before recorded.
pub open spec fn state_before(history: Seq<(BFState, BFChar)>, k: int) -> Machine {
    if k == 0 {
        Machine::fresh()
    } else {
        history[k - 1].0@
    }
}

/// `entry` records one step from the state `before`: the instruction that
/// was under the program pointer, and the state after it, for something
/// that the input gave.
pub open spec fn records_step(
    instrs: Seq<BFChar>,
    before: Machine,
    entry: (BFState, BFChar),
) -> bool {
    &&& !before.halted(instrs)
    &&& entry.1 == instrs[before.program_pointer as int]
    &&& exists|pulled: Option<i8>| entry.0@ == #[trigger] before.step(instrs, pulled)
}

/// A step keeps what was written and the cells there were: the output only
/// grows, by the cell under the tape pointer where the instruction writes,
/// and the tape gets no shorter.
pub proof fn lemma_step_keeps(before: Machine, instrs: Seq<BFChar>, pulled: Option<i8>)
    requires
        before.wf(),
        !before.halted(instrs),
    ensures
        before.step(instrs, pulled).output == if instrs[before.program_pointer as int]
            == BFChar::Output {
            before.output.push(before.cell())
        } else {
            before.output
        },
        before.step(instrs, pulled).memory.len() >= before.memory.len(),
        before.step(instrs, pulled).memory_behavior == before.memory_behavior,
{
}

impl View for BFState {
    type V = Machine;

    open spec fn view(&self) -> Machine {
        Machine {
            program_pointer: self.program_pointer,
            memory_pointer: self.memory_pointer,
            memory: self.memory@,
            memory_behavior: self.memory_behavior,
            output: self.output@,
        }
    }
}

/// `a + b` in the ring of size `modulo`: `ring_add`.
pub fn wrapping_add(a: usize, b: isize, modulo: usize) -> (r: usize)
    requires
        modulo > 0,
    ensures
        r == ring_add(a as int, b as int, modulo as int),
        r < modulo,
{
    let x: i128 = a as i128 + b as i128;
    let m: i128 = modulo as i128;
    match x.checked_rem_euclid(m) {
        Some(r) => r as usize,
        None => 0,
    }
}

/// Whether the run is over.
pub fn halted(state: &BFState, program: &Program) -> (over: bool)
    ensures
        over == state@.halted(program@),
{
    state.program_pointer >= program.len()
}

impl BFState {
    /// A fresh state: `Machine::fresh`.
    pub fn new() -> (state: BFState)
        ensures
            state@ == Machine::fresh(),
            state@.wf(),
    {
        let memory: Vec<i8> = vec![0i8; INITAL_MEMORY];
        assert(memory@ =~= Seq::new(INITAL_MEMORY as nat, |i: int| 0i8));
        BFState {
            program_pointer: 0,
            memory_pointer: 0,
            memory,
            memory_behavior: MemoryBehavior::Wrapping(INITAL_MEMORY),
            output: Vec::with_capacity(100),
        }
    }

    /// Whether the state is one that steps can start from: `Machine::wf`.
    pub fn well_formed(&self) -> (wf: bool)
        ensures
            wf == self@.wf(),
    {
        self.memory_pointer < self.memory.len() && match self.memory_behavior {
            MemoryBehavior::Wrapping(modulo) => 0 < modulo && modulo <= self.memory.len(),
            MemoryBehavior::InfiniteRightwards => true,
        }
    }

    /// A copy of the state.
    pub fn duplicate(&self) -> (copy: BFState)
        ensures
            copy@ == self@,
    {
        let memory = self.memory.clone();
        let output = self.output.clone();
        BFState {
            program_pointer: self.program_pointer,
            memory_pointer: self.memory_pointer,
            memory,
            memory_behavior: self.memory_behavior,
            output,
        }
    }

    /// Whether the instruction under the program pointer reads the input.
    pub fn needs_input(&self, program: &Program) -> (needs: bool)
        ensures
            needs == (!self@.halted(program@) && program@[self.program_pointer as int]
                == BFChar::Input),
    {
        self.program_pointer < program.len() && program.get(self.program_pointer) == BFChar::Input
    }

    /// Executes one instruction: `Machine::step`. `pulled` is what the input
    /// gave for it, `None` when the input has run out.
    pub fn step_with(&mut self, program: &Program, pulled: Option<i8>)
        requires
            old(self)@.wf(),
            !old(self)@.halted(program@),
        ensures
            final(self)@ == old(self)@.step(program@, pulled),
            final(self)@.wf(),
    {
        let instruction = program.get(self.program_pointer);
        let ghost before = self@;
        proof {
            program.lemma_len_fits();
            assert(self.memory.len() <= usize::MAX);
        }
        match instruction {
            BFChar::Plus => {
                let cell = self.memory[self.memory_pointer].wrapping_add(1);
                self.memory.set(self.memory_pointer, cell);
            },
            BFChar::Minus => {
                let cell = self.memory[self.memory_pointer].wrapping_sub(1);
                self.memory.set(self.memory_pointer, cell);
            },
            BFChar::Left => match self.memory_behavior {
                MemoryBehavior::Wrapping(modulo) => {
                    self.memory_pointer = wrapping_add(self.memory_pointer, -1, modulo);
                },
                MemoryBehavior::InfiniteRightwards => {
                    self.memory_pointer = self.memory_pointer.saturating_sub(1);
                },
            },
            BFChar::Right => match self.memory_behavior {
                MemoryBehavior::Wrapping(modulo) => {
                    self.memory_pointer = wrapping_add(self.memory_pointer, 1, modulo);
                },
                MemoryBehavior::InfiniteRightwards => {
                    self.memory_pointer += 1;
                    if self.memory_pointer >= self.memory.len() {
                        let mut added: usize = 0;
                        while added < EXTEND_MEMORY_AMOUNT
                            invariant
                                added <= EXTEND_MEMORY_AMOUNT,
                                self.memory@ == before.memory + Seq::new(added as nat, |i: int| 0i8),
                                self.memory_pointer == before.memory_pointer + 1,
                                self.program_pointer == before.program_pointer,
                                self.memory_behavior == before.memory_behavior,
                                self.output@ == before.output,
                            decreases EXTEND_MEMORY_AMOUNT - added,
                        {
                            self.memory.push(0);
                            added += 1;
                        }
                    }
                },
            },
            BFChar::StartLoop => {
                if self.memory[self.memory_pointer] == 0 {
                    let close = program.matching_loop(self.program_pointer).unwrap();
                    proof {
                        let found = partner(program@, self.program_pointer as int);
                        lemma_pair_unique_close(
                            program@,
                            self.program_pointer as int,
                            close as int,
                            found,
                        );
                    }
                    self.program_pointer = close;
                }
            },
            BFChar::EndLoop => {
                if self.memory[self.memory_pointer] != 0 {
                    let open = program.matching_loop(self.program_pointer).unwrap();
                    proof {
                        let found = partner(program@, self.program_pointer as int);
                        lemma_pair_unique_open(
                            program@,
                            open as int,
                            found,
                            self.program_pointer as int,
                        );
                    }
                    self.program_pointer = open;
                }
            },
            BFChar::Input => {
                let cell = match pulled {
                    None => 0,
                    Some(x) => x,
                };
                self.memory.set(self.memory_pointer, cell);
            },
            BFChar::Output => {
                let cell = self.memory[self.memory_pointer];
                self.output.push(cell);
            },
        }
        self.program_pointer += 1;
    }

    /// Executes one instruction. Where it is `Input`, one item is pulled
    /// from `input`, and 0 is stored when `input` has run out; no other
    /// instruction touches `input`.
    ///
    /// The state after the step is that of `Machine::step` for what `input`
    /// gave. Of an input that keeps the laws of iterators this is the first
    /// of the items that it still had.
    pub fn step<I: Iterator<Item = i8>>(&mut self, program: &Program, input: &mut I)
        requires
            old(self)@.wf(),
            !old(self)@.halted(program@),
        ensures
            final(self)@.wf(),
            exists|pulled: Option<i8>|
                {
                    &&& final(self)@ == #[trigger] old(self)@.step(program@, pulled)
                    &&& program@[old(self).program_pointer as int] != BFChar::Input
                        ==> *final(input) == *old(input)
                    &&& program@[old(self).program_pointer as int] == BFChar::Input
                        && I::obeys_prophetic_iter_laws(old(input))
                        ==> if I::remaining(old(input)).len() > 0 {
                        pulled == Some(I::remaining(old(input))[0]) && I::remaining(final(input))
                            == I::remaining(old(input)).drop_first()
                    } else {
                        pulled is None && I::remaining(final(input)) == I::remaining(old(input))
                    }
                },
    {
        let pulled = if self.needs_input(program) {
            input.next()
        } else {
            None
        };
        self.step_with(program, pulled);
    }
}

impl Default for BFState {
    fn default() -> (state: BFState)
        ensures
            state@ == Machine::fresh(),
    {
        BFState::new()
    }
}

/// Runs `program` from a fresh state, pulling from `input`, until it halts
/// or `MAX_STEPS + 1` steps are done, and returns what each step executed
/// and left. `max_steps` sizes the record beforehand and does not bound the
/// run.
pub fn execution_history<I: Iterator<Item = i8>>(
    program: &Program,
    input: &mut I,
    max_steps: usize,
) -> (history: Vec<(BFState, BFChar)>)
    ensures
        history.len() <= MAX_STEPS + 1,
        forall|k: int|
            0 <= k < history.len() ==> records_step(
                program@,
                state_before(history@, k),
                #[trigger] history[k],
            ),
        history.len() <= MAX_STEPS ==> state_before(history@, history.len() as int).halted(
            program@,
        ),
{
    let room = if max_steps <= MAX_STEPS { max_steps } else { MAX_STEPS + 1 };
    let mut history: Vec<(BFState, BFChar)> = Vec::with_capacity(room);
    let mut state = BFState::new();
    let mut num_steps: usize = 0;

    while !halted(&state, program) && num_steps <= MAX_STEPS
        invariant
            num_steps == history.len(),
            num_steps <= MAX_STEPS + 1,
            state@ == state_before(history@, history.len() as int),
            state@.wf(),
            forall|k: int|
                0 <= k < history.len() ==> records_step(
                    program@,
                    state_before(history@, k),
                    #[trigger] history[k],
                ),
        decreases MAX_STEPS + 1 - num_steps,
    {
        let instr = program.get(state.program_pointer);
        state.step(program, input);
        let entry = (state.duplicate(), instr);
        history.push(entry);
        num_steps += 1;
    }

    history
}

} // verus!
