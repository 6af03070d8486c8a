//! A three-stage back end for a stack-based virtual machine: a parser for the
//! VM language, a translator into symbolic assembly, a two-pass assembler and
//! an emulator of the 16-bit target machine.

pub mod text;
pub mod decimal;
pub mod types;
pub mod assembler;
pub mod emul;
pub mod parser;
pub mod translator;
pub mod readback;
pub mod effects;
pub mod laws;
pub mod lexer;

