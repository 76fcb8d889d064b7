//! The document's metadata: display units and the optional allowed
//! vocabularies that drive validation.

use vstd::prelude::*;
use crate::input::unit::Unit;
use crate::validators::distances_values::DistancesValues;
use crate::validators::group_values::GroupValues;
use crate::validators::temperatures_values::TemperaturesValues;

verus! {

/// The two display units, borrowed together.
pub struct Formatters<'a> {
    pub weight: &'a Unit,
    pub price: &'a Unit,
}

/// The metadata block of a document.  An allowed vocabulary that is present
/// but empty constrains nothing and counts as absent.
pub struct Meta {
    pub weight: Unit,
    pub price: Unit,
    pub groups: Option<GroupValues>,
    pub distances: Option<DistancesValues>,
    pub temperatures: Option<TemperaturesValues>,
}

impl Meta {
    /// The group vocabulary that actually constrains records: a present,
    /// non-empty one.
    pub open spec fn spec_groups(&self) -> Option<GroupValues> {
        match self.groups {
            Some(g) => if g.values@.len() == 0 {
                None
            } else {
                Some(g)
            },
            None => None,
        }
    }

    /// The distance vocabulary that actually constrains records.
    pub open spec fn spec_distances(&self) -> Option<DistancesValues> {
        match self.distances {
            Some(d) => if d.values@.len() == 0 {
                None
            } else {
                Some(d)
            },
            None => None,
        }
    }

    /// The temperature vocabulary that actually constrains records.
    pub open spec fn spec_temperatures(&self) -> Option<TemperaturesValues> {
        match self.temperatures {
            Some(t) => if t.values@.len() == 0 {
                None
            } else {
                Some(t)
            },
            None => None,
        }
    }

    /// The weight display unit.
    pub fn weight(&self) -> (r: &Unit)
        ensures
            *r == self.weight,
    {
        &self.weight
    }

    /// The price display unit.
    pub fn price(&self) -> (r: &Unit)
        ensures
            *r == self.price,
    {
        &self.price
    }

    /// The group vocabulary, or nothing when absent or empty.
    pub fn groups(&self) -> (r: Option<&GroupValues>)
        ensures
            match r {
                Some(g) => self.spec_groups() == Some(*g),
                None => self.spec_groups() is None,
            },
    {
        match &self.groups {
            Some(g) => if g.is_empty() {
                None
            } else {
                Some(g)
            },
            None => None,
        }
    }

    /// The distance vocabulary, or nothing when absent or empty.
    pub fn distances(&self) -> (r: Option<&DistancesValues>)
        ensures
            match r {
                Some(d) => self.spec_distances() == Some(*d),
                None => self.spec_distances() is None,
            },
    {
        match &self.distances {
            Some(d) => if d.is_empty() {
                None
            } else {
                Some(d)
            },
            None => None,
        }
    }

    /// The temperature vocabulary, or nothing when absent or empty.
    pub fn temperatures(&self) -> (r: Option<&TemperaturesValues>)
        ensures
            match r {
                Some(t) => self.spec_temperatures() == Some(*t),
                None => self.spec_temperatures() is None,
            },
    {
        match &self.temperatures {
            Some(t) => if t.is_empty() {
                None
            } else {
                Some(t)
            },
            None => None,
        }
    }

    /// Both display units, borrowed together.
    pub fn formatters(&self) -> (r: Formatters<'_>)
        ensures
            *r.weight == self.weight,
            *r.price == self.price,
    {
        Formatters { weight: &self.weight, price: &self.price }
    }
}

} // verus!
