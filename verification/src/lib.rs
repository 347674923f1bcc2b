//! A small language toolchain: a lexer, a recursive-descent parser, a code
//! generator that lowers the syntax tree to a tape-machine assembly, an
//! assembler from that assembly to bytecode, and a bytecode interpreter over
//! a bounded memory.
//!
//! Every stage is stated against a mathematical model: each function's
//! contract says which value the stage produces and on which inputs it
//! fails.
pub mod error;
pub mod text;
pub mod processor;
pub mod tokenizer;
pub mod interpreter;
pub mod bytecode;
pub mod parser;
pub mod generation;
