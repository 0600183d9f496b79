//! A small tape-machine language: a tokenizer, an instruction-tree builder and
//! a tape evaluator, with the language's semantics stated as specification
//! functions and every executable part proved against them.

pub mod engine;
pub mod errors;
pub mod interpreter;
pub mod laws;
pub mod parser;
pub mod roundtrip;
pub mod semantics;
pub mod syntax;
pub mod tape;

pub use engine::Engine;
pub use interpreter::Interpreter;
pub use tape::Snapshot;
pub use tape::Tape;
