//! An optimizing compiler and interpreter for a minimal tape-based language.
//!
//! Source text is lexed to a flat stream of primitive operations, rebuilt
//! into a tree of nested loops, rewritten by a series of
//! semantics-preserving optimization passes, and finally executed by a
//! tree-walking engine over a growable tape of 8-bit cells.

pub mod ops;
pub mod lexer;
pub mod tree;
pub mod peephole;
pub mod offsets;
pub mod addmul;
pub mod memory;
pub mod engine;
pub mod pipeline;
