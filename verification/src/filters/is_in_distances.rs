//! The distance filter: keeps records whose distance tags meet any of the
//! accepted ones.

use vstd::prelude::*;
use crate::input::item::Item;
use crate::validators::validity::tag_in;

verus! {

/// The accepted distance values.
pub struct IsInDistances {
    pub distances: Vec<String>,
}

impl IsInDistances {
    /// Whether a record passes: some accepted value is among its distance
    /// tags.
    pub open spec fn spec_accepts(&self, item: Item) -> bool {
        exists|i: int|
            0 <= i < self.distances.deep_view().len() && tag_in(
                item.stored_distances(),
                #[trigger] self.distances.deep_view()[i],
            )
    }

    /// Wraps the accepted values as a filter.
    pub fn from_values(distances: Vec<String>) -> (r: Self)
        ensures
            r.distances == distances,
    {
        IsInDistances { distances }
    }

    /// Tests the record against the accepted values.
    pub fn filter(&self, item: &Item) -> (r: bool)
        ensures
            r == self.spec_accepts(*item),
    {
        let mut i: usize = 0;
        while i < self.distances.len()
            invariant
                i <= self.distances@.len(),
                forall|j: int|
                    0 <= j < i ==> !tag_in(
                        item.stored_distances(),
                        #[trigger] self.distances.deep_view()[j],
                    ),
            decreases self.distances@.len() - i,
        {
            proof {
                assert(self.distances.deep_view()[i as int] == self.distances@[i as int]@);
            }
            if item.is_distance(self.distances[i].as_str()) {
                return true;
            }
            i = i + 1;
        }
        false
    }
}

} // verus!
