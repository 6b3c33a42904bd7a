//! A compiler from a small language of integer expressions, single-letter
//! variables and assignments into stack-machine code for x86-64.
//!
//! The pipeline is `token` (bytes to tokens), `parse` (tokens to syntax
//! trees), `codegen` (trees to instructions) and `driver` (all three). The
//! instructions' meaning is given by `machine`, the source's by `eval`;
//! `codegen` proves that the two agree, and `laws` states and proves the
//! language's precedence, grouping, assignment and tokenizing rules.
pub mod codegen;
pub mod driver;
pub mod eval;
pub mod laws;
pub mod machine;
pub mod parse;
pub mod token;
