//! Text utilities: lexicographic order, tag joining, and sorting.

use gear_query::input::item::Item;
use gear_query::text::join::join_tags;
use gear_query::text::order::{str_eq, str_le, str_lt};
use gear_query::text::sort::sort_strings;

fn tags(values: &[&str]) -> Vec<String> {
    values.iter().map(|v| v.to_string()).collect()
}

#[test]
fn string_order_is_lexicographic() {
    assert!(str_lt("abc", "abd"));
    assert!(str_lt("ab", "abc"));
    assert!(!str_lt("abc", "abc"));
    assert!(!str_lt("b", "abc"));
    assert!(str_le("abc", "abc"));
    assert!(str_eq("abc", "abc"));
    assert!(!str_eq("abc", "abd"));
}

#[test]
fn sorting_strings_orders_ascending() {
    let mut values = tags(&["short", "long", "medium"]);
    sort_strings(&mut values);
    assert_eq!(values, tags(&["long", "medium", "short"]));
}

#[test]
fn joining_tags_uses_the_separator_between_parts() {
    assert_eq!(join_tags(&tags(&["long", "short"]), " / "), "long / short");
    assert_eq!(join_tags(&tags(&["only"]), " / "), "only");
    assert_eq!(join_tags(&tags(&[]), " / "), "");
}

#[test]
fn splitting_a_joined_tag_set_recovers_its_cardinality() {
    let values = tags(&["long", "medium", "short"]);
    let joined = join_tags(&values, " / ");
    assert_eq!(joined.split(" / ").count(), values.len());
    let one = tags(&["alone"]);
    assert_eq!(join_tags(&one, " / ").split(" / ").count(), 1);
}

#[test]
fn ordered_tags_are_sorted_and_complete() {
    let item = Item {
        kind: "Tent".to_string(),
        name: None,
        group: None,
        weight: None,
        price: None,
        distances: Some(tags(&["short", "long", "medium"])),
        temperatures: None,
    };
    assert_eq!(item.ordered_distances(), tags(&["long", "medium", "short"]));
    assert_eq!(item.ordered_temperatures(), tags(&[]));
}
