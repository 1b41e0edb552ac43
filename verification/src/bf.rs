//! The tape machine: instructions, validation, the jump table, the stepper.

pub mod generate;
pub mod program;
pub mod score;
pub mod state;
pub mod text;

pub use generate::{mutate, mutated, random_bf, random_bf_with};
pub use program::{is_valid, loop_dict, BFChar, InvalidProgram, Program};
pub use score::interest_score;
pub use state::{execution_history, halted, wrapping_add, BFState, Machine, MemoryBehavior};
pub use text::{from_string, to_string};
