//! The group filter: keeps records whose group is among the accepted ones.

use vstd::prelude::*;
use crate::input::item::Item;
use crate::validators::validity::{contains_tag, tag_in};

verus! {

/// The accepted group values.
pub struct IsInGroups {
    pub groups: Vec<String>,
}

impl IsInGroups {
    /// Whether a record passes: it has a group and that group is accepted.
    pub open spec fn spec_accepts(&self, item: Item) -> bool {
        match item.group {
            Some(g) => tag_in(self.groups.deep_view(), g@),
            None => false,
        }
    }

    /// Wraps the accepted values as a filter.
    pub fn from_values(groups: Vec<String>) -> (r: Self)
        ensures
            r.groups == groups,
    {
        IsInGroups { groups }
    }

    /// Tests the record against the accepted values.
    pub fn filter(&self, item: &Item) -> (r: bool)
        ensures
            r == self.spec_accepts(*item),
    {
        match item.group() {
            Some(group) => contains_tag(&self.groups, group),
            None => false,
        }
    }
}

} // verus!
