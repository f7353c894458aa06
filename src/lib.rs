//! An assembler for a 16-bit toy machine: source text is tokenized, parsed
//! into address and compute instructions with labels bound in a symbol table,
//! and encoded as lines of sixteen binary digits.
use vstd::prelude::*;

pub mod assembler;
pub mod binary_code_generator;
pub mod instructions;
pub mod lexer;
pub mod parser;
pub mod symbol_table;
pub mod text;
pub mod token;

verus! {

} // verus!
