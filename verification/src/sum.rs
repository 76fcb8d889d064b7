//! The column aggregate: the sum of a numeric field over the query result,
//! rendered with the field's display unit.

use vstd::prelude::*;
use crate::input::gear::derefs;
use crate::input::item::{field_name_chars, Field, Item};
use crate::input::meta::Meta;
use crate::input::unit::unit_applied;
use crate::text::number::dec_chars;

verus! {

/// The sum of the weights of the first `upto` records, absent weights
/// contributing zero.
pub open spec fn weight_total(items: Seq<Item>, upto: int) -> int
    decreases upto,
{
    if upto <= 0 {
        0
    } else {
        weight_total(items, upto - 1) + (match items[upto - 1].weight {
            Some(w) => w as int,
            None => 0,
        })
    }
}

/// The sum of the prices of the first `upto` records, absent prices
/// contributing zero.
pub open spec fn price_total(items: Seq<Item>, upto: int) -> int
    decreases upto,
{
    if upto <= 0 {
        0
    } else {
        price_total(items, upto - 1) + (match items[upto - 1].price {
            Some(p) => p as int,
            None => 0,
        })
    }
}

/// The aggregate line: the field's name and its total with the matching
/// display unit applied.
pub open spec fn sum_chars(column: Field, meta: Meta, items: Seq<Item>) -> Seq<char>
    recommends
        column == Field::Weight || column == Field::Price,
{
    let total = if column == Field::Weight {
        weight_total(items, items.len() as int)
    } else {
        price_total(items, items.len() as int)
    };
    let unit = if column == Field::Weight {
        meta.weight
    } else {
        meta.price
    };
    "Total "@ + field_name_chars(column) + ": "@ + unit_applied(unit, dec_chars(total))
}

/// The rendered aggregate line.
pub struct Sum(pub String);

impl Sum {
    /// Sums the field over the records, absent values contributing zero,
    /// and renders the total with the field's unit; sort order does not
    /// affect the result.  Only the weight and price fields can be summed.
    pub fn new(column: Field, meta: &Meta, items: &Vec<&Item>) -> (r: Sum)
        requires
            column == Field::Weight || column == Field::Price,
        ensures
            r.0@ == sum_chars(column, *meta, derefs(items@)),
    {
        let ghost ds = derefs(items@);
        let mut text = String::new();
        text.append("Total ");
        match column {
            Field::Weight => text.append("weight"),
            _ => text.append("price"),
        }
        text.append(": ");
        proof {
            assert(text@ =~= "Total "@ + field_name_chars(column) + ": "@);
        }
        let ghost prefix = text@;
        let total: i128 = match column {
            Field::Weight => {
                let mut acc: i128 = 0;
                let mut i: usize = 0;
                while i < items.len()
                    invariant
                        i <= items@.len(),
                        ds == derefs(items@),
                        acc as int == weight_total(ds, i as int),
                        -(i as int) * 0x8000_0000 <= acc as int <= (i as int) * 0x8000_0000,
                    decreases items@.len() - i,
                {
                    proof {
                        assert(ds[i as int] == *items@[i as int]);
                    }
                    match items[i].weight {
                        Some(w) => {
                            acc = acc + (w as i128);
                        },
                        None => {},
                    }
                    i = i + 1;
                }
                acc
            },
            _ => {
                let mut acc: i128 = 0;
                let mut i: usize = 0;
                while i < items.len()
                    invariant
                        i <= items@.len(),
                        ds == derefs(items@),
                        acc as int == price_total(ds, i as int),
                        -(i as int) * 0x8000_0000_0000_0000 <= acc as int <= (i as int)
                            * 0x8000_0000_0000_0000,
                    decreases items@.len() - i,
                {
                    proof {
                        assert(ds[i as int] == *items@[i as int]);
                    }
                    match items[i].price {
                        Some(p) => {
                            acc = acc + (p as i128);
                        },
                        None => {},
                    }
                    i = i + 1;
                }
                acc
            },
        };
        let unit = match column {
            Field::Weight => meta.weight(),
            _ => meta.price(),
        };
        unit.format_to_string(total, &mut text);
        proof {
            assert(text@ =~= sum_chars(column, *meta, ds));
        }
        Sum(text)
    }

    /// The rendered line.
    pub fn text(&self) -> (r: &str)
        ensures
            r@ == self.0@,
    {
        self.0.as_str()
    }
}

} // verus!
