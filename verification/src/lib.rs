//! A small dynamic-language runtime: a tagged-value object model and a
//! bytecode engine that runs a byte-encoded instruction tape, together with
//! the front end that turns source text into such a tape.
//!
//! The engine ([`interpreter`]) makes one pass over the tape. It has no jumps
//! and no call stack: calls and loops insert code into the tape behind the
//! cursor, and a branch not taken is read without being run. Values are
//! objects with a member table ([`yapko`]); operators and printing go through
//! the members of their operands ([`native`]); names live in a stack of frames
//! ([`scope`]), of which frame 0 holds the standard library ([`standard`]).
//!
//! The library does no input or output. Text for standard output gathers in
//! the engine; for a line of input and for floating-point arithmetic the
//! engine stops and asks its host.
//!
//! The front end is a tokenizer ([`lexer`]), a tree builder ([`parser`]) and an
//! encoder ([`bytecode`]). What holds of all of it, whatever the program, is
//! stated and proved in [`laws`].

pub mod bytecode;
pub mod error;
pub mod interpreter;
pub mod laws;
pub mod lexer;
pub mod native;
pub mod opcode;
pub mod parser;
pub mod scope;
pub mod standard;
pub mod text;
pub mod yapko;
