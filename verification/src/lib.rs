//! A read-only query engine over a small structured gear inventory: composable
//! tag filters, tri-state tag validation, field-indexed stable sorting, and a
//! fixed-width aligned table renderer with an optional column aggregate.

pub mod column;
pub mod error;
pub mod filters;
pub mod input;
pub mod sort;
pub mod sum;
pub mod table;
pub mod text;
pub mod validate;
pub mod validators;
