//! Table cells: optional textual content, an alignment, and the fitting of
//! a cell into a fixed-width field.

pub mod aligned;
pub mod column;
pub mod content;
pub mod fitted;
