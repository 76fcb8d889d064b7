//! The tri-state outcome of checking a record's tag or tag set against an
//! allowed vocabulary.

use vstd::prelude::*;

verus! {

/// The outcome of one validity check: the value is in the vocabulary, the
/// value is absent, or the value (carried along) is outside the vocabulary.
#[derive(Debug, PartialEq, Eq)]
pub enum Validity {
    Valid,
    Missing,
    Invalid(String),
}

/// The same tri-state outcome at the specification level, carrying the
/// offending value's characters.
pub enum SpecValidity {
    Valid,
    Missing,
    Invalid(Seq<char>),
}

/// Whether an executable outcome denotes a specification outcome.
pub open spec fn validity_matches(r: Validity, s: SpecValidity) -> bool {
    match (r, s) {
        (Validity::Valid, SpecValidity::Valid) => true,
        (Validity::Missing, SpecValidity::Missing) => true,
        (Validity::Invalid(v), SpecValidity::Invalid(c)) => v@ == c,
        _ => false,
    }
}

/// Whether the vocabulary holds the tag.
pub open spec fn tag_in(allowed: Seq<Seq<char>>, tag: Seq<char>) -> bool {
    exists|i: int| 0 <= i < allowed.len() && #[trigger] allowed[i] == tag
}

/// The outcome of checking one optional tag against a vocabulary.
pub open spec fn validity_of_tag(tag: Option<Seq<char>>, allowed: Seq<Seq<char>>) -> SpecValidity {
    match tag {
        None => SpecValidity::Missing,
        Some(t) => if tag_in(allowed, t) {
            SpecValidity::Valid
        } else {
            SpecValidity::Invalid(t)
        },
    }
}

/// The first tag, in stored order, that lies outside the vocabulary.
pub open spec fn first_offender(tags: Seq<Seq<char>>, allowed: Seq<Seq<char>>) -> Option<Seq<char>>
    decreases tags.len(),
{
    if tags.len() == 0 {
        None
    } else if !tag_in(allowed, tags[0]) {
        Some(tags[0])
    } else {
        first_offender(tags.skip(1), allowed)
    }
}

/// The outcome of checking an optional tag set against a vocabulary: an
/// absent or empty set is missing, and otherwise the first tag outside the
/// vocabulary, in stored order, is the reported offender.
pub open spec fn validity_of_tag_set(
    tags: Option<Seq<Seq<char>>>,
    allowed: Seq<Seq<char>>,
) -> SpecValidity {
    match tags {
        None => SpecValidity::Missing,
        Some(ts) => if ts.len() == 0 {
            SpecValidity::Missing
        } else {
            match first_offender(ts, allowed) {
                None => SpecValidity::Valid,
                Some(t) => SpecValidity::Invalid(t),
            }
        },
    }
}

/// Reports whether the vocabulary holds the tag.
pub fn contains_tag(allowed: &Vec<String>, tag: &str) -> (r: bool)
    ensures
        r == tag_in(allowed.deep_view(), tag@),
{
    let mut i: usize = 0;
    while i < allowed.len()
        invariant
            i <= allowed@.len(),
            forall|j: int| 0 <= j < i ==> #[trigger] allowed.deep_view()[j] != tag@,
        decreases allowed@.len() - i,
    {
        if crate::text::order::str_eq(allowed[i].as_str(), tag) {
            proof {
                assert(allowed.deep_view()[i as int] == tag@);
            }
            return true;
        }
        proof {
            assert(allowed.deep_view()[i as int] == allowed@[i as int]@);
        }
        i = i + 1;
    }
    false
}

} // verus!
