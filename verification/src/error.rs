//! The error the query pipeline reports when a selected record fails
//! validation.

use vstd::prelude::*;

verus! {

/// A query-time failure, carrying a human-readable message that names the
/// offending record and attribute.
#[derive(Debug, PartialEq, Eq)]
pub enum Error {
    GearError(String),
}

impl Error {
    /// The characters of the carried message.
    pub open spec fn message_chars(&self) -> Seq<char> {
        match self {
            Error::GearError(m) => m@,
        }
    }

    /// The carried message.
    pub fn message(&self) -> (r: &str)
        ensures
            r@ == self.message_chars(),
    {
        match self {
            Error::GearError(m) => m.as_str(),
        }
    }
}

} // verus!
