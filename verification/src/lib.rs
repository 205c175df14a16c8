//! Front end for a Lua-like scripting language.
//!
//! The crate turns a finished token sequence (produced by a scanner) into a
//! validated, precedence-correct abstract syntax tree, and reports syntax
//! errors with exact source-location context.  The pipeline is: segmentation
//! of the token stream into statement candidates, recursive statement
//! collapsing (unary folding, binary precedence climbing, assignment
//! recognition, block matching), and a final chunk validation pass.

pub mod codeslice;
pub mod token;
pub mod element;
pub mod diagnostics;
pub mod reduce;
pub mod parser;
pub mod laws;
