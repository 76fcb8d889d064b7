//! Rendering: cell fitting, table text, unit formatting, and the aggregate.

use gear_query::column::aligned::Alignment;
use gear_query::column::column::Column;
use gear_query::column::content::Content;
use gear_query::input::item::{Field, Item};
use gear_query::input::meta::Meta;
use gear_query::input::unit::{Position, Unit};
use gear_query::sum::Sum;
use gear_query::table::Table;

fn item(kind: &str, weight: Option<i32>, price: Option<i64>) -> Item {
    Item {
        kind: kind.to_string(),
        name: None,
        group: None,
        weight,
        price,
        distances: None,
        temperatures: None,
    }
}

fn meta_with(symbol: &str, position: Position) -> Meta {
    Meta {
        weight: Unit { symbol: symbol.to_string(), position },
        price: Unit { symbol: "$".to_string(), position: Position::Prefix },
        groups: None,
        distances: None,
        temperatures: None,
    }
}

fn fitted(alignment: Alignment, text: Option<&str>, width: usize) -> String {
    let column = Column::new(alignment, Content(text.map(|t| t.to_string())));
    let mut out = String::new();
    column.as_fitted(width).append_to(&mut out);
    out
}

#[test]
fn left_fit_pads_on_the_right() {
    assert_eq!(fitted(Alignment::Left, Some("ab"), 5), "ab   ");
}

#[test]
fn right_fit_pads_on_the_left() {
    assert_eq!(fitted(Alignment::Right, Some("ab"), 5), "   ab");
}

#[test]
fn centre_fit_puts_the_odd_space_on_the_right() {
    assert_eq!(fitted(Alignment::Centre, Some("ab"), 5), " ab  ");
    assert_eq!(fitted(Alignment::Centre, Some("ab"), 6), "  ab  ");
}

#[test]
fn fit_preserves_content_and_yields_exact_width() {
    for alignment in [Alignment::Left, Alignment::Centre, Alignment::Right] {
        let text = fitted(alignment, Some("core"), 9);
        assert_eq!(text.chars().count(), 9);
        assert!(text.contains("core"));
    }
}

#[test]
fn absent_content_has_width_zero_and_renders_blank() {
    let column = Column::new(Alignment::Left, Content(None));
    assert_eq!(column.width(), 0);
    assert_eq!(fitted(Alignment::Left, None, 3), "   ");
}

#[test]
fn unit_formats_prefix_and_suffix() {
    let suffix = Unit { symbol: "g".to_string(), position: Position::Suffix };
    let mut out = String::new();
    suffix.format_to_string(250, &mut out);
    assert_eq!(out, "250g");
    let prefix = Unit { symbol: "$".to_string(), position: Position::Prefix };
    let mut out = String::new();
    prefix.format_to_string(-42, &mut out);
    assert_eq!(out, "$-42");
}

#[test]
fn unit_formats_zero() {
    let unit = Unit { symbol: "kg".to_string(), position: Position::Suffix };
    let mut out = String::new();
    unit.format_to_string(0, &mut out);
    assert_eq!(out, "0kg");
}

#[test]
fn sum_of_weights_formats_with_the_weight_unit() {
    let meta = meta_with("g", Position::Suffix);
    let a = item("Knife", Some(50), None);
    let b = item("Rope", Some(200), None);
    let records = vec![&a, &b];
    let sum = Sum::new(Field::Weight, &meta, &records);
    assert_eq!(sum.text(), "Total weight: 250g");
}

#[test]
fn sum_treats_absent_values_as_zero() {
    let meta = meta_with("g", Position::Suffix);
    let a = item("Knife", Some(75), None);
    let b = item("Rope", None, None);
    let records = vec![&a, &b];
    let sum = Sum::new(Field::Weight, &meta, &records);
    assert_eq!(sum.text(), "Total weight: 75g");
}

#[test]
fn sum_of_prices_uses_the_price_unit() {
    let meta = meta_with("g", Position::Suffix);
    let a = item("Knife", None, Some(1200));
    let b = item("Rope", None, Some(300));
    let records = vec![&a, &b];
    let sum = Sum::new(Field::Price, &meta, &records);
    assert_eq!(sum.text(), "Total price: $1500");
}

#[test]
fn table_renders_a_bordered_grid() {
    let meta = meta_with("g", Position::Suffix);
    let rope = item("Rope", Some(50), None);
    let records = vec![&rope];
    let headers = vec![Field::Kind, Field::Weight];
    let table = Table::new(&headers, &records, &meta.formatters());
    let expected = "\
+------+--------+\n\
| KIND | WEIGHT |\n\
+------+--------+\n\
| Rope |    50g |\n\
+------+--------+\n";
    assert_eq!(table.render(), expected);
}

#[test]
fn table_joins_sorted_tags_and_blanks_absent_cells() {
    let meta = meta_with("g", Position::Suffix);
    let mut tent = item("Tent", None, None);
    tent.distances = Some(vec!["short".to_string(), "long".to_string()]);
    let tarp = item("Tarp", None, None);
    let records = vec![&tent, &tarp];
    let headers = vec![Field::Kind, Field::Distances];
    let table = Table::new(&headers, &records, &meta.formatters());
    let expected = "\
+------+--------------+\n\
| KIND |  DISTANCES   |\n\
+------+--------------+\n\
| Tent | long / short |\n\
+------+--------------+\n\
| Tarp |              |\n\
+------+--------------+\n";
    assert_eq!(table.render(), expected);
}

#[test]
fn weight_cells_sit_flush_right_with_their_unit() {
    let meta = meta_with("kg", Position::Suffix);
    let rope = item("Rope", Some(7), None);
    let column = rope.column(Field::Weight, &meta.formatters());
    assert_eq!(column.alignment, Alignment::Right);
    assert_eq!(column.content.0, Some("7kg".to_string()));
}

#[test]
fn empty_tag_set_renders_as_no_content() {
    let meta = meta_with("g", Position::Suffix);
    let mut tent = item("Tent", None, None);
    tent.distances = Some(vec![]);
    let column = tent.column(Field::Distances, &meta.formatters());
    assert_eq!(column.content.0, None);
    assert_eq!(column.width(), 0);
}
