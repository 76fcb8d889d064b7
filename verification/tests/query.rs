//! End-to-end query scenarios: selection, filtering, validation, sorting.

use gear_query::error::Error;
use gear_query::filters::filter::Filter;
use gear_query::filters::is_in_distances::IsInDistances;
use gear_query::filters::is_in_groups::IsInGroups;
use gear_query::input::gear::Gear;
use gear_query::input::item::{Field, Item};
use gear_query::input::meta::Meta;
use gear_query::input::unit::{Position, Unit};
use gear_query::sort::{reversed, sort_items};
use gear_query::validators::distances_values::DistancesValues;
use gear_query::validators::group_values::GroupValues;
use gear_query::validators::validator::Validator;
use gear_query::validators::validity::Validity;

fn item(kind: &str, name: Option<&str>, weight: Option<i32>) -> Item {
    Item {
        kind: kind.to_string(),
        name: name.map(|n| n.to_string()),
        group: None,
        weight,
        price: None,
        distances: None,
        temperatures: None,
    }
}

fn plain_meta() -> Meta {
    Meta {
        weight: Unit { symbol: "g".to_string(), position: Position::Suffix },
        price: Unit { symbol: "$".to_string(), position: Position::Prefix },
        groups: None,
        distances: None,
        temperatures: None,
    }
}

#[test]
fn sorting_by_weight_orders_ascending() {
    let knife = item("Knife", Some("Blade"), Some(200));
    let rope = item("Rope", None, Some(50));
    let gear = Gear { meta: plain_meta(), base: Some(vec![knife, rope]), consumables: None };
    let mut results = gear
        .filter_and_validate(true, false, false, None, None, None)
        .expect("no validators are active");
    sort_items(&mut results, Field::Weight);
    assert_eq!(results.len(), 2);
    assert_eq!(results[0].kind, "Rope");
    assert_eq!(results[0].weight, Some(50));
    assert_eq!(results[1].kind, "Knife");
    assert_eq!(results[1].weight, Some(200));
}

#[test]
fn empty_selection_yields_empty_result_without_error() {
    let gear = Gear {
        meta: plain_meta(),
        base: Some(vec![item("Knife", None, Some(10))]),
        consumables: Some(vec![item("Bar", None, Some(60))]),
    };
    let results = gear
        .filter_and_validate(false, false, false, None, None, None)
        .expect("an empty selection must not fail");
    assert!(results.is_empty());
}

#[test]
fn invalid_group_aborts_with_descriptive_error() {
    let mut record = item("Knife", Some("Blade"), None);
    record.group = Some("swim".to_string());
    let mut meta = plain_meta();
    meta.groups = Some(GroupValues {
        values: vec!["hike".to_string(), "camp".to_string()],
    });
    let gear = Gear { meta, base: Some(vec![record]), consumables: None };
    let error = gear
        .filter_and_validate(true, false, false, None, None, None)
        .expect_err("the group is outside the vocabulary");
    let Error::GearError(message) = error;
    assert_eq!(
        message,
        "Expected `camp` or `hike` for `group` on `Blade`, but found: `swim`"
    );
}

#[test]
fn absent_distances_fail_as_missing_not_invalid() {
    let record = item("Tent", None, None);
    let mut meta = plain_meta();
    meta.distances = Some(DistancesValues {
        values: vec!["short".to_string(), "long".to_string()],
    });
    let gear = Gear { meta, base: Some(vec![record]), consumables: None };
    let error = gear
        .filter_and_validate(true, false, false, None, None, None)
        .expect_err("the distances are required but absent");
    let Error::GearError(message) = error;
    assert_eq!(
        message,
        "Expected `long` or `short` for `distances` on `Tent`, but the value is missing"
    );
}

#[test]
fn group_validity_is_tri_state() {
    let vocabulary = vec!["camp".to_string(), "hike".to_string()];
    let mut record = item("Knife", None, None);
    assert_eq!(record.group_validity(&vocabulary), Validity::Missing);
    record.group = Some("camp".to_string());
    assert_eq!(record.group_validity(&vocabulary), Validity::Valid);
    record.group = Some("swim".to_string());
    assert_eq!(
        record.group_validity(&vocabulary),
        Validity::Invalid("swim".to_string())
    );
}

#[test]
fn empty_tag_set_counts_as_missing() {
    let vocabulary = vec!["short".to_string()];
    let mut record = item("Tent", None, None);
    record.distances = Some(vec![]);
    assert_eq!(record.distances_validity(&vocabulary), Validity::Missing);
    record.distances = Some(vec!["short".to_string()]);
    assert_eq!(record.distances_validity(&vocabulary), Validity::Valid);
    record.distances = Some(vec!["short".to_string(), "far".to_string()]);
    assert_eq!(
        record.distances_validity(&vocabulary),
        Validity::Invalid("far".to_string())
    );
}

#[test]
fn empty_vocabulary_constrains_nothing() {
    let mut meta = plain_meta();
    meta.groups = Some(GroupValues { values: vec![] });
    assert!(meta.groups().is_none());
    let mut record = item("Knife", None, None);
    record.group = Some("anything".to_string());
    let gear = Gear { meta, base: Some(vec![record]), consumables: None };
    let results = gear
        .filter_and_validate(true, false, false, None, None, None)
        .expect("an empty vocabulary must not validate");
    assert_eq!(results.len(), 1);
}

#[test]
fn group_filter_keeps_only_members() {
    let mut knife = item("Knife", None, None);
    knife.group = Some("camp".to_string());
    let mut rope = item("Rope", None, None);
    rope.group = Some("climb".to_string());
    let tarp = item("Tarp", None, None);
    let gear = Gear {
        meta: plain_meta(),
        base: Some(vec![knife, rope, tarp]),
        consumables: None,
    };
    let results = gear
        .filter_and_validate(true, false, false, Some(vec!["camp".to_string()]), None, None)
        .expect("filtering never fails");
    assert_eq!(results.len(), 1);
    assert_eq!(results[0].kind, "Knife");
}

#[test]
fn distance_filter_uses_any_match_semantics() {
    let mut tent = item("Tent", None, None);
    tent.distances = Some(vec!["short".to_string(), "long".to_string()]);
    let mut bag = item("Bag", None, None);
    bag.distances = Some(vec!["medium".to_string()]);
    let gear = Gear {
        meta: plain_meta(),
        base: Some(vec![tent, bag]),
        consumables: None,
    };
    let results = gear
        .filter_and_validate(
            true,
            false,
            false,
            None,
            Some(vec!["long".to_string(), "extreme".to_string()]),
            None,
        )
        .expect("filtering never fails");
    assert_eq!(results.len(), 1);
    assert_eq!(results[0].kind, "Tent");
}

#[test]
fn base_precedes_consumables_and_selection_flags_work() {
    let gear = Gear {
        meta: plain_meta(),
        base: Some(vec![item("Knife", None, None)]),
        consumables: Some(vec![item("Bar", None, None)]),
    };
    let all = gear
        .filter_and_validate(true, false, false, None, None, None)
        .unwrap();
    assert_eq!(all.len(), 2);
    assert_eq!(all[0].kind, "Knife");
    assert_eq!(all[1].kind, "Bar");
    let base_only = gear
        .filter_and_validate(false, true, false, None, None, None)
        .unwrap();
    assert_eq!(base_only.len(), 1);
    assert_eq!(base_only[0].kind, "Knife");
    let consumables_only = gear
        .filter_and_validate(false, false, true, None, None, None)
        .unwrap();
    assert_eq!(consumables_only.len(), 1);
    assert_eq!(consumables_only[0].kind, "Bar");
}

#[test]
fn sort_is_stable_for_equal_keys() {
    let first = item("Knife", Some("First"), Some(100));
    let second = item("Rope", Some("Second"), Some(100));
    let third = item("Tarp", Some("Third"), Some(50));
    let gear = Gear {
        meta: plain_meta(),
        base: Some(vec![first, second, third]),
        consumables: None,
    };
    let mut results = gear
        .filter_and_validate(true, false, false, None, None, None)
        .unwrap();
    sort_items(&mut results, Field::Weight);
    assert_eq!(results[0].name, Some("Third".to_string()));
    assert_eq!(results[1].name, Some("First".to_string()));
    assert_eq!(results[2].name, Some("Second".to_string()));
}

#[test]
fn absent_values_sort_before_present_ones() {
    let named = item("Knife", Some("Alpha"), None);
    let anonymous = item("Rope", None, None);
    let gear = Gear {
        meta: plain_meta(),
        base: Some(vec![named, anonymous]),
        consumables: None,
    };
    let mut results = gear
        .filter_and_validate(true, false, false, None, None, None)
        .unwrap();
    sort_items(&mut results, Field::Name);
    assert_eq!(results[0].kind, "Rope");
    assert_eq!(results[1].kind, "Knife");
}

#[test]
fn descending_display_is_a_reversal() {
    let light = item("Rope", None, Some(50));
    let heavy = item("Knife", None, Some(200));
    let gear = Gear {
        meta: plain_meta(),
        base: Some(vec![light, heavy]),
        consumables: None,
    };
    let mut results = gear
        .filter_and_validate(true, false, false, None, None, None)
        .unwrap();
    sort_items(&mut results, Field::Weight);
    let descending = reversed(&results);
    assert_eq!(descending[0].weight, Some(200));
    assert_eq!(descending[1].weight, Some(50));
}

#[test]
fn first_failing_record_aborts_the_whole_query() {
    let mut good = item("Knife", None, None);
    good.group = Some("camp".to_string());
    let mut bad = item("Rope", None, None);
    bad.group = Some("swim".to_string());
    let mut meta = plain_meta();
    meta.groups = Some(GroupValues { values: vec!["camp".to_string()] });
    let gear = Gear { meta, base: Some(vec![good, bad]), consumables: None };
    let error = gear
        .filter_and_validate(true, false, false, None, None, None)
        .expect_err("the second record fails validation");
    let Error::GearError(message) = error;
    assert!(message.contains("`Rope`"));
    assert!(message.contains("`swim`"));
}

#[test]
fn filter_list_is_a_conjunction() {
    let mut tent = item("Tent", None, None);
    tent.group = Some("camp".to_string());
    tent.distances = Some(vec!["short".to_string()]);
    let filters = vec![
        Filter::IsInGroups(IsInGroups::from_values(vec!["camp".to_string()])),
        Filter::IsInDistances(IsInDistances::from_values(vec!["short".to_string()])),
    ];
    assert!(tent.filter(&filters));
    let narrower = vec![
        Filter::IsInGroups(IsInGroups::from_values(vec!["camp".to_string()])),
        Filter::IsInDistances(IsInDistances::from_values(vec!["long".to_string()])),
    ];
    assert!(!tent.filter(&narrower));
    assert!(tent.filter(&vec![]));
}

#[test]
fn comparer_orders_tag_lists_elementwise() {
    let mut a = item("A", None, None);
    a.distances = Some(vec!["medium".to_string(), "long".to_string()]);
    let mut b = item("B", None, None);
    b.distances = Some(vec!["short".to_string()]);
    let comparer = Item::comparer_by(Field::Distances);
    // sorted views: ["long", "medium"] against ["short"]
    assert!(comparer.le(&a, &b));
    assert!(!comparer.le(&b, &a));
    let empty = item("C", None, None);
    assert!(comparer.le(&empty, &a));
}

#[test]
fn validator_reports_its_vocabulary() {
    let values = GroupValues { values: vec!["hike".to_string(), "camp".to_string()] };
    assert_eq!(values.attribute(), "group");
    assert_eq!(values.expected(), "`camp` or `hike`");
    assert!(!values.is_empty());
    let mut record = item("Knife", None, None);
    record.group = Some("camp".to_string());
    assert!(Validator::GroupValues(&values).validate(&record).is_ok());
}

#[test]
fn one_validator_stands_for_each_active_vocabulary() {
    let mut meta = plain_meta();
    meta.groups = Some(GroupValues { values: vec!["camp".to_string()] });
    meta.distances = Some(DistancesValues { values: vec![] });
    let gear = Gear { meta, base: None, consumables: None };
    // the empty distances vocabulary constrains nothing and gets no validator
    assert_eq!(gear.validators().len(), 1);
}

#[test]
fn error_carries_its_message() {
    let error = Error::GearError("something went wrong".to_string());
    assert_eq!(error.message(), "something went wrong");
}
