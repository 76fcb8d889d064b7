//! One active validator, dispatching to the vocabulary it was built from.

use vstd::prelude::*;
use crate::error::Error;
use crate::input::item::Item;
use crate::validators::distances_values::DistancesValues;
use crate::validators::group_values::GroupValues;
use crate::validators::temperatures_values::TemperaturesValues;

verus! {

/// An active validator: a borrowed, non-empty allowed vocabulary for one
/// of the three tag families.
pub enum Validator<'a> {
    GroupValues(&'a GroupValues),
    DistancesValues(&'a DistancesValues),
    TemperaturesValues(&'a TemperaturesValues),
}

impl<'a> Validator<'a> {
    /// Whether the wrapped vocabulary is non-empty, as construction
    /// promises.
    pub open spec fn wf(&self) -> bool {
        match self {
            Validator::GroupValues(g) => g.values@.len() > 0,
            Validator::DistancesValues(d) => d.values@.len() > 0,
            Validator::TemperaturesValues(t) => t.values@.len() > 0,
        }
    }

    /// The failure this validator reports for a record, if any.
    pub open spec fn spec_failure(&self, item: Item) -> Option<Seq<char>> {
        match self {
            Validator::GroupValues(g) => g.spec_failure(item),
            Validator::DistancesValues(d) => d.spec_failure(item),
            Validator::TemperaturesValues(t) => t.spec_failure(item),
        }
    }

    /// Checks the record against the wrapped vocabulary.
    pub fn validate(&self, item: &Item) -> (r: Result<(), Error>)
        requires
            self.wf(),
        ensures
            match r {
                Ok(()) => self.spec_failure(*item) is None,
                Err(e) => Some(e.message_chars()) == self.spec_failure(*item),
            },
    {
        match self {
            Validator::GroupValues(groups) => groups.validate(item),
            Validator::DistancesValues(distances) => distances.validate(item),
            Validator::TemperaturesValues(temperatures) => temperatures.validate(item),
        }
    }
}

} // verus!
