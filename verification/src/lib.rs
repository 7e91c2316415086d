//! A small ahead-of-time compiler that turns a tiny expression language into
//! a bytecode module loadable by a stack/register virtual machine.  The crate
//! covers the whole pipeline: lexing source text, parsing it into an abstract
//! syntax tree, and emitting the binary container (chunk framing, compact
//! operand encoding, atom/import/export tables and the code stream).

pub mod atoms;
pub mod codec;
pub mod compiler;
pub mod diag;
pub mod lex;
pub mod parser;
