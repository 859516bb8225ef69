//! A static-analysis core for a bytecode verification toolchain: an interned
//! expression model for specification formulas, a join-semilattice dataflow
//! framework, a compositional per-function summary cache, and a memory-usage
//! analysis that tracks which global memory locations each function touches.

pub mod ast;
pub mod bytecode;
pub mod compositional;
pub mod dataflow;
pub mod display;
pub mod domains;
pub mod ids;
pub mod memory;
pub mod model;
pub mod rewrite;
pub mod traversal;
pub mod ty;
pub mod usage;
pub mod vars;
