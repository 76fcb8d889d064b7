//! The texts of validation failures: what a validator reports when a
//! required attribute is missing or holds an unexpected value.

use vstd::prelude::*;
use crate::text::join::join_with;
use crate::text::sort::{sort_strings, sorted_tag_chars};

verus! {

/// The message for an attribute that is absent although a vocabulary
/// constrains it.
pub open spec fn missing_message_chars(
    expected: Seq<char>,
    attribute: Seq<char>,
    owner: Seq<char>,
) -> Seq<char> {
    "Expected "@ + expected + " for `"@ + attribute + "` on `"@ + owner
        + "`, but the value is missing"@
}

/// The message for an attribute value outside the allowed vocabulary.
pub open spec fn invalid_message_chars(
    expected: Seq<char>,
    attribute: Seq<char>,
    owner: Seq<char>,
    invalid: Seq<char>,
) -> Seq<char> {
    "Expected "@ + expected + " for `"@ + attribute + "` on `"@ + owner + "`, but found: `"@
        + invalid + "`"@
}

/// The human-readable rendering of an allowed vocabulary: the values in
/// ascending character order, each in backticks, joined with "or".
pub open spec fn expected_chars(values: Seq<Seq<char>>) -> Seq<char> {
    "`"@ + join_with(sorted_tag_chars(values), "` or `"@) + "`"@
}

/// Builds the missing-attribute message.
pub fn missing_message(expected: &str, attribute: &str, owner: &str) -> (r: String)
    ensures
        r@ == missing_message_chars(expected@, attribute@, owner@),
{
    let mut r = String::new();
    r.append("Expected ");
    r.append(expected);
    r.append(" for `");
    r.append(attribute);
    r.append("` on `");
    r.append(owner);
    r.append("`, but the value is missing");
    proof {
        assert(r@ =~= missing_message_chars(expected@, attribute@, owner@));
    }
    r
}

/// Builds the unexpected-value message.
pub fn invalid_message(expected: &str, attribute: &str, owner: &str, invalid: &str) -> (r: String)
    ensures
        r@ == invalid_message_chars(expected@, attribute@, owner@, invalid@),
{
    let mut r = String::new();
    r.append("Expected ");
    r.append(expected);
    r.append(" for `");
    r.append(attribute);
    r.append("` on `");
    r.append(owner);
    r.append("`, but found: `");
    r.append(invalid);
    r.append("`");
    proof {
        assert(r@ =~= invalid_message_chars(expected@, attribute@, owner@, invalid@));
    }
    r
}

/// Builds the accepted-values text for an allowed vocabulary.
pub fn expected_text(values: &Vec<String>) -> (r: String)
    ensures
        r@ == expected_chars(values.deep_view()),
{
    let mut sorted: Vec<String> = Vec::new();
    let mut i: usize = 0;
    while i < values.len()
        invariant
            i <= values@.len(),
            sorted@.len() == i,
            forall|j: int| 0 <= j < i ==> sorted@[j]@ == #[trigger] values@[j]@,
        decreases values@.len() - i,
    {
        sorted.push(values[i].clone());
        i = i + 1;
    }
    proof {
        assert(sorted.deep_view() =~= values.deep_view());
    }
    sort_strings(&mut sorted);
    let joined = crate::text::join::join_tags(&sorted, "` or `");
    let mut r = String::new();
    r.append("`");
    r.append(joined.as_str());
    r.append("`");
    proof {
        assert(r@ =~= expected_chars(values.deep_view()));
    }
    r
}

} // verus!
