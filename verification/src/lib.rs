//! Two small bytecode engines for generative art: a tape machine (`bf`) and a
//! stack expression language (`bytebeat`), each with a validator, an
//! interpreter, a random generator and a mutator.

pub mod bf;
pub mod bytebeat;
pub mod random;
pub mod text;
