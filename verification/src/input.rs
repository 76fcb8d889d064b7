//! The data model: the document, its metadata, its records, and the
//! display units.

pub mod gear;
pub mod item;
pub mod meta;
pub mod unit;
