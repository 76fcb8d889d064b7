//! One filter predicate, and the conjunction of a filter list over a
//! record.

use vstd::prelude::*;
use crate::filters::is_in_distances::IsInDistances;
use crate::filters::is_in_groups::IsInGroups;
use crate::filters::is_in_temperatures::IsInTemperatures;
use crate::input::item::Item;

verus! {

/// One of the three filter predicates over a record.
pub enum Filter {
    IsInGroups(IsInGroups),
    IsInDistances(IsInDistances),
    IsInTemperatures(IsInTemperatures),
}

impl Filter {
    /// Whether a record passes this predicate.
    pub open spec fn spec_accepts(&self, item: Item) -> bool {
        match self {
            Filter::IsInGroups(f) => f.spec_accepts(item),
            Filter::IsInDistances(f) => f.spec_accepts(item),
            Filter::IsInTemperatures(f) => f.spec_accepts(item),
        }
    }

    /// Tests the record against this predicate.
    pub fn filter(&self, item: &Item) -> (r: bool)
        ensures
            r == self.spec_accepts(*item),
    {
        match self {
            Filter::IsInGroups(filter) => filter.filter(item),
            Filter::IsInDistances(filter) => filter.filter(item),
            Filter::IsInTemperatures(filter) => filter.filter(item),
        }
    }
}

/// Whether a record passes every predicate in the list; an empty list
/// passes every record.
pub open spec fn filters_pass(item: Item, filters: Seq<Filter>) -> bool {
    forall|i: int| 0 <= i < filters.len() ==> (#[trigger] filters[i]).spec_accepts(item)
}

impl Item {
    /// Whether the record passes every filter in the list.
    pub fn filter(&self, filters: &Vec<Filter>) -> (r: bool)
        ensures
            r == filters_pass(*self, filters@),
    {
        let mut i: usize = 0;
        while i < filters.len()
            invariant
                i <= filters@.len(),
                forall|j: int| 0 <= j < i ==> (#[trigger] filters@[j]).spec_accepts(*self),
            decreases filters@.len() - i,
        {
            if !filters[i].filter(self) {
                return false;
            }
            i = i + 1;
        }
        true
    }
}

} // verus!
