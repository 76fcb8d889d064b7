//! The allowed vocabulary for the temperature tag set.

use vstd::prelude::*;
use crate::error::Error;
use crate::input::item::Item;
use crate::validate::{
    expected_chars, expected_text, invalid_message, invalid_message_chars, missing_message,
    missing_message_chars,
};
use crate::validators::validity::{validity_of_tag_set, SpecValidity, Validity};

verus! {

/// The temperature values a record may carry.
pub struct TemperaturesValues {
    pub values: Vec<String>,
}

impl TemperaturesValues {
    /// Well-formed: the vocabulary holds distinct values, as befits a set.
    /// The document loader establishes this.
    pub open spec fn wf(&self) -> bool {
        self.values.deep_view().no_duplicates()
    }

    /// Whether the vocabulary holds no values and so constrains nothing.
    pub fn is_empty(&self) -> (r: bool)
        ensures
            r == (self.values@.len() == 0),
    {
        self.values.is_empty()
    }

    /// The attribute this validator checks.
    pub fn attribute(&self) -> (r: String)
        ensures
            r@ == "temperatures"@,
    {
        let mut r = String::new();
        r.append("temperatures");
        proof {
            assert(r@ =~= "temperatures"@);
        }
        r
    }

    /// The accepted-values text used in failure messages.
    pub fn expected(&self) -> (r: String)
        ensures
            r@ == expected_chars(self.values.deep_view()),
    {
        expected_text(&self.values)
    }

    /// The failure this validator reports for a record, if any.
    pub open spec fn spec_failure(&self, item: Item) -> Option<Seq<char>> {
        match validity_of_tag_set(
            match item.temperatures {
                Some(t) => Some(t.deep_view()),
                None => None,
            },
            self.values.deep_view(),
        ) {
            SpecValidity::Valid => None,
            SpecValidity::Missing => Some(
                missing_message_chars(
                    expected_chars(self.values.deep_view()),
                    "temperatures"@,
                    item.id_chars(),
                ),
            ),
            SpecValidity::Invalid(v) => Some(
                invalid_message_chars(
                    expected_chars(self.values.deep_view()),
                    "temperatures"@,
                    item.id_chars(),
                    v,
                ),
            ),
        }
    }

    /// Checks the record's temperature tags, turning a non-valid outcome
    /// into a descriptive error.
    pub fn validate(&self, item: &Item) -> (r: Result<(), Error>)
        requires
            self.values@.len() > 0,
        ensures
            match r {
                Ok(()) => self.spec_failure(*item) is None,
                Err(e) => Some(e.message_chars()) == self.spec_failure(*item),
            },
    {
        match item.temperatures_validity(&self.values) {
            Validity::Valid => Ok(()),
            Validity::Missing => {
                let expected = self.expected();
                Err(
                    Error::GearError(missing_message(expected.as_str(), "temperatures", item.id())),
                )
            },
            Validity::Invalid(value) => {
                let expected = self.expected();
                Err(
                    Error::GearError(
                        invalid_message(
                            expected.as_str(),
                            "temperatures",
                            item.id(),
                            value.as_str(),
                        ),
                    ),
                )
            },
        }
    }
}

} // verus!
