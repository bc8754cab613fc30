//! Core primitives for sparse linear algebra: a compressed sparse vector
//! with its structural invariants, the ordered merge-iteration protocol used
//! to combine two sparse vectors (dot product, elementwise addition and
//! subtraction), and a fixed-capacity double-ended stack used to drive
//! iterative graph-traversal algorithms.

pub mod errors;
pub mod scalar;
pub mod csvec;
pub mod stack;
