//! The stack expression language: commands, compilation, evaluation.

pub mod cmd;
pub mod compile;
pub mod convert;
pub mod eval;
pub mod format;
pub mod generate;
pub mod ieee;
pub mod lex;
pub mod numeral;
pub mod order;
pub mod parse;
pub mod roundtrip;
pub mod value;

pub use cmd::{BiFloatType, BiType, Cmd, CompType, LiteralType, TrigType, VarType};
pub use compile::{compile, CompileError, ErrorKind, Program};
pub use eval::{apply_cmd, eval_beat, pending, Inputs, RealOp};
pub use format::{format_beat, format_cmd};
pub use generate::{can_mutate, draw_like, mutate, mutated, random_beat};
pub use parse::{parse_beat, ParseError};
pub use value::Val;
