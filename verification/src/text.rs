//! Character-sequence utilities shared by the query engine: lexicographic
//! ordering of strings and tag lists, separator joining, and decimal rendering.

pub mod join;
pub mod number;
pub mod order;
pub mod sort;
