//! An interpreter for the assembly language of a small register machine: a
//! machine with one accumulator, registers that are named or numbered, an
//! input tape and an output tape.
//!
//! Source text goes through three stages. The lexer turns it into tokens, the
//! parser turns tokens into instructions, and the interpreter runs them, one
//! step at a time or to the end. A program can also be shown as a numbered
//! listing and as a control-flow graph.
//!
//! Each executable function is proved against a mathematical definition of
//! what it computes: the lexer and the parser against functions on sequences
//! of characters and tokens, the interpreter against a machine model.
pub mod error;
pub mod graph;
pub mod instruction;
pub mod interpreter;
pub mod level;
pub mod lexer;
pub mod listing;
pub mod machine;
pub mod parser;
pub mod program;
pub mod registers;
pub mod roundtrip;
pub mod text;
pub mod value;
