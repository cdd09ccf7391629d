//! An assembler and trace virtual machine for a small 8-bit instruction set.
//!
//! Source text goes through the lexer, the parser and the two-pass compiler
//! to become a byte image; the virtual machine loads and runs such an image.

pub mod text;
pub mod ops;
pub mod program;
pub mod vm;
pub mod lexer;
pub mod parser;
pub mod dump;
pub mod compiler;
pub mod cli;
