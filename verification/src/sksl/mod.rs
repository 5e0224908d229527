//! The SkSL shading language: syntax trees, parsing, checking and emission.

pub mod ast;
pub mod check;
pub mod emit;
pub mod grammar;
pub mod lex;
pub mod model;
pub mod nesting;
pub mod parse;
pub mod preprocess;
pub mod readback;
pub mod spelling;
