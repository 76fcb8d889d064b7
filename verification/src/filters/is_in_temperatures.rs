//! The temperature filter: keeps records whose temperature tags meet any
//! of the accepted ones.

use vstd::prelude::*;
use crate::input::item::Item;
use crate::validators::validity::tag_in;

verus! {

/// The accepted temperature values.
pub struct IsInTemperatures {
    pub temperatures: Vec<String>,
}

impl IsInTemperatures {
    /// Whether a record passes: some accepted value is among its
    /// temperature tags.
    pub open spec fn spec_accepts(&self, item: Item) -> bool {
        exists|i: int|
            0 <= i < self.temperatures.deep_view().len() && tag_in(
                item.stored_temperatures(),
                #[trigger] self.temperatures.deep_view()[i],
            )
    }

    /// Wraps the accepted values as a filter.
    pub fn from_values(temperatures: Vec<String>) -> (r: Self)
        ensures
            r.temperatures == temperatures,
    {
        IsInTemperatures { temperatures }
    }

    /// Tests the record against the accepted values.
    pub fn filter(&self, item: &Item) -> (r: bool)
        ensures
            r == self.spec_accepts(*item),
    {
        let mut i: usize = 0;
        while i < self.temperatures.len()
            invariant
                i <= self.temperatures@.len(),
                forall|j: int|
                    0 <= j < i ==> !tag_in(
                        item.stored_temperatures(),
                        #[trigger] self.temperatures.deep_view()[j],
                    ),
            decreases self.temperatures@.len() - i,
        {
            proof {
                assert(self.temperatures.deep_view()[i as int] == self.temperatures@[i as int]@);
            }
            if item.is_temperature(self.temperatures[i].as_str()) {
                return true;
            }
            i = i + 1;
        }
        false
    }
}

} // verus!
