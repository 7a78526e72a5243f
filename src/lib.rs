//! Front end of a relational equality-saturation engine: desugaring, single-assignment
//! flattening of rules, proof instrumentation and the map container sort.

pub mod ast;
pub mod fresh;
pub mod desugar;
pub mod laws;
pub mod map_sort;
pub mod proofs;
