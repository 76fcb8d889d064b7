//! The display unit for a numeric column: a symbol written before or after
//! the rendered value.

use vstd::prelude::*;
use crate::text::number::{append_dec_i128, dec_chars};

verus! {

/// Where the unit symbol stands relative to the value.
#[derive(Clone, Copy, PartialEq, Eq, Structural, Debug)]
pub enum Position {
    Prefix,
    Suffix,
}

/// A display unit: its symbol and its position.
pub struct Unit {
    pub symbol: String,
    pub position: Position,
}

/// The rendered value with the unit symbol applied around it.
pub open spec fn unit_applied(unit: Unit, value: Seq<char>) -> Seq<char> {
    match unit.position {
        Position::Prefix => unit.symbol@ + value,
        Position::Suffix => value + unit.symbol@,
    }
}

impl Unit {
    /// Appends the value in decimal with the unit symbol prefixed or
    /// suffixed, as the unit's position directs.
    pub fn format_to_string(&self, value: i128, buffer: &mut String)
        ensures
            final(buffer)@ == old(buffer)@ + unit_applied(*self, dec_chars(value as int)),
    {
        match self.position {
            Position::Prefix => {
                buffer.append(self.symbol.as_str());
                append_dec_i128(buffer, value);
                proof {
                    assert(buffer@ =~= old(buffer)@ + unit_applied(
                        *self,
                        dec_chars(value as int),
                    ));
                }
            },
            Position::Suffix => {
                append_dec_i128(buffer, value);
                buffer.append(self.symbol.as_str());
                proof {
                    assert(buffer@ =~= old(buffer)@ + unit_applied(
                        *self,
                        dec_chars(value as int),
                    ));
                }
            },
        }
    }
}

} // verus!
