//! The field-indexed record order and the stable sort over query results.

use vstd::prelude::*;
use vstd::relations::sorted_by;
use crate::input::gear::{derefs, lemma_filter_singleton};
use crate::input::item::{opt_chars, Field, Item};
use crate::text::order::{
    chars_le, chars_lt, lemma_chars_le_duality, lemma_chars_lt_transitive, lemma_tags_le_duality,
    lemma_tags_lt_transitive, str_le, tag_list_lt, tags_le, tags_lt,
};
use crate::text::sort::{lemma_remove_insert_permutes, sorted_tag_chars};

verus! {

/// The order on two optional character sequences: an absent value sorts
/// before any present one.
pub open spec fn opt_chars_le(a: Option<Seq<char>>, b: Option<Seq<char>>) -> bool {
    match (a, b) {
        (None, _) => true,
        (Some(_), None) => false,
        (Some(x), Some(y)) => chars_le(x, y),
    }
}

/// The order on two optional integers: an absent value sorts before any
/// present one.
pub open spec fn opt_int_le(a: Option<int>, b: Option<int>) -> bool {
    match (a, b) {
        (None, _) => true,
        (Some(_), None) => false,
        (Some(x), Some(y)) => x <= y,
    }
}

/// The weight of a record as an optional integer.
pub open spec fn opt_weight(item: Item) -> Option<int> {
    match item.weight {
        Some(w) => Some(w as int),
        None => None,
    }
}

/// The price of a record as an optional integer.
pub open spec fn opt_price(item: Item) -> Option<int> {
    match item.price {
        Some(p) => Some(p as int),
        None => None,
    }
}

/// The non-strict order records are compared with for a field: an absent
/// value sorts before any present one; string fields compare by
/// characters, numeric fields numerically, and tag fields by their sorted
/// tag lists, element by element.
pub open spec fn field_le(field: Field, a: Item, b: Item) -> bool {
    match field {
        Field::Kind => chars_le(a.kind@, b.kind@),
        Field::Name => opt_chars_le(opt_chars(a.name), opt_chars(b.name)),
        Field::Group => opt_chars_le(opt_chars(a.group), opt_chars(b.group)),
        Field::Weight => opt_int_le(opt_weight(a), opt_weight(b)),
        Field::Price => opt_int_le(opt_price(a), opt_price(b)),
        Field::Distances => tags_le(
            sorted_tag_chars(a.stored_distances()),
            sorted_tag_chars(b.stored_distances()),
        ),
        Field::Temperatures => tags_le(
            sorted_tag_chars(a.stored_temperatures()),
            sorted_tag_chars(b.stored_temperatures()),
        ),
    }
}

/// The field order, as a single relation value.
pub open spec fn field_leq(field: Field) -> spec_fn(Item, Item) -> bool {
    |a: Item, b: Item| field_le(field, a, b)
}

/// Equivalence of two records under a field's order: each is at most the
/// other.
pub open spec fn key_equiv(field: Field, rep: Item) -> spec_fn(Item) -> bool {
    |x: Item| field_le(field, x, rep) && field_le(field, rep, x)
}

/// Any two records are comparable under every field's order.
pub proof fn lemma_field_le_total(field: Field, a: Item, b: Item)
    ensures
        field_le(field, a, b) || field_le(field, b, a),
{
    match field {
        Field::Kind => {
            lemma_chars_le_duality(a.kind@, b.kind@);
        },
        Field::Name => {
            if a.name is Some && b.name is Some {
                lemma_chars_le_duality(a.name->0@, b.name->0@);
            }
        },
        Field::Group => {
            if a.group is Some && b.group is Some {
                lemma_chars_le_duality(a.group->0@, b.group->0@);
            }
        },
        Field::Weight => {},
        Field::Price => {},
        Field::Distances => {
            lemma_tags_le_duality(
                sorted_tag_chars(a.stored_distances()),
                sorted_tag_chars(b.stored_distances()),
            );
        },
        Field::Temperatures => {
            lemma_tags_le_duality(
                sorted_tag_chars(a.stored_temperatures()),
                sorted_tag_chars(b.stored_temperatures()),
            );
        },
    }
}

/// Transitivity of the non-strict tag-list order.
proof fn lemma_tags_le_trans(a: Seq<Seq<char>>, b: Seq<Seq<char>>, c: Seq<Seq<char>>)
    requires
        tags_le(a, b),
        tags_le(b, c),
    ensures
        tags_le(a, c),
{
    if tags_lt(a, b) && tags_lt(b, c) {
        lemma_tags_lt_transitive(a, b, c);
    }
}

/// Every field's order is transitive.
pub proof fn lemma_field_le_trans(field: Field, a: Item, b: Item, c: Item)
    requires
        field_le(field, a, b),
        field_le(field, b, c),
    ensures
        field_le(field, a, c),
{
    match field {
        Field::Kind => {
            if chars_lt(a.kind@, b.kind@) && chars_lt(b.kind@, c.kind@) {
                lemma_chars_lt_transitive(a.kind@, b.kind@, c.kind@);
            }
        },
        Field::Name => {
            if a.name is Some && b.name is Some && c.name is Some {
                if chars_lt(a.name->0@, b.name->0@) && chars_lt(b.name->0@, c.name->0@) {
                    lemma_chars_lt_transitive(a.name->0@, b.name->0@, c.name->0@);
                }
            }
        },
        Field::Group => {
            if a.group is Some && b.group is Some && c.group is Some {
                if chars_lt(a.group->0@, b.group->0@) && chars_lt(b.group->0@, c.group->0@) {
                    lemma_chars_lt_transitive(a.group->0@, b.group->0@, c.group->0@);
                }
            }
        },
        Field::Weight => {},
        Field::Price => {},
        Field::Distances => {
            lemma_tags_le_trans(
                sorted_tag_chars(a.stored_distances()),
                sorted_tag_chars(b.stored_distances()),
                sorted_tag_chars(c.stored_distances()),
            );
        },
        Field::Temperatures => {
            lemma_tags_le_trans(
                sorted_tag_chars(a.stored_temperatures()),
                sorted_tag_chars(b.stored_temperatures()),
                sorted_tag_chars(c.stored_temperatures()),
            );
        },
    }
}

/// A comparator bound to one field.
pub struct Comparer {
    pub field: Field,
}

impl Item {
    /// The comparator for a field, as the sorting caller requests it.
    pub fn comparer_by(field: Field) -> (r: Comparer)
        ensures
            r.field == field,
    {
        Comparer { field }
    }
}

/// Compares two optional strings with absent values first.
fn opt_str_le(a: &Option<String>, b: &Option<String>) -> (r: bool)
    ensures
        r == opt_chars_le(opt_chars(*a), opt_chars(*b)),
{
    match (a, b) {
        (None, _) => true,
        (Some(_), None) => false,
        (Some(x), Some(y)) => str_le(x.as_str(), y.as_str()),
    }
}

impl Comparer {
    /// Whether the first record sorts at or before the second under this
    /// comparator's field.
    pub fn le(&self, a: &Item, b: &Item) -> (r: bool)
        ensures
            r == field_le(self.field, *a, *b),
    {
        match self.field {
            Field::Kind => str_le(a.kind.as_str(), b.kind.as_str()),
            Field::Name => opt_str_le(&a.name, &b.name),
            Field::Group => opt_str_le(&a.group, &b.group),
            Field::Weight => match (a.weight, b.weight) {
                (None, _) => true,
                (Some(_), None) => false,
                (Some(x), Some(y)) => x <= y,
            },
            Field::Price => match (a.price, b.price) {
                (None, _) => true,
                (Some(_), None) => false,
                (Some(x), Some(y)) => x <= y,
            },
            Field::Distances => {
                let oa = a.ordered_distances();
                let ob = b.ordered_distances();
                let lt = tag_list_lt(&ob, &oa);
                proof {
                    lemma_tags_le_duality(oa.deep_view(), ob.deep_view());
                }
                !lt
            },
            Field::Temperatures => {
                let oa = a.ordered_temperatures();
                let ob = b.ordered_temperatures();
                let lt = tag_list_lt(&ob, &oa);
                proof {
                    lemma_tags_le_duality(oa.deep_view(), ob.deep_view());
                }
                !lt
            },
        }
    }
}

/// A filter keeps nothing of a sequence none of whose elements pass it.
proof fn lemma_filter_all_false(s: Seq<Item>, pred: spec_fn(Item) -> bool)
    requires
        forall|j: int| 0 <= j < s.len() ==> !pred(#[trigger] s[j]),
    ensures
        s.filter(pred) == Seq::<Item>::empty(),
    decreases s.len(),
{
    reveal(Seq::filter);
    if s.len() > 0 {
        assert(forall|j: int| 0 <= j < s.len() - 1 ==> s.drop_last()[j] == #[trigger] s[j]);
        lemma_filter_all_false(s.drop_last(), pred);
    }
}

/// Moving one element across a block none of whose elements share its key
/// leaves the filtered subsequence unchanged.
proof fn lemma_filter_swap_block(b: Seq<Item>, x: Item, pred: spec_fn(Item) -> bool)
    requires
        pred(x) ==> forall|j: int| 0 <= j < b.len() ==> !pred(#[trigger] b[j]),
    ensures
        (b + seq![x]).filter(pred) == (seq![x] + b).filter(pred),
{
    Seq::filter_distributes_over_add(b, seq![x], pred);
    Seq::filter_distributes_over_add(seq![x], b, pred);
    lemma_filter_singleton(x, pred);
    if pred(x) {
        lemma_filter_all_false(b, pred);
        assert(b.filter(pred) + seq![x].filter(pred) =~= seq![x].filter(pred) + b.filter(pred));
    } else {
        assert(b.filter(pred) + seq![x].filter(pred) =~= seq![x].filter(pred) + b.filter(pred));
    }
}

/// Taking the record at `i` out and putting it back at `p`, across records
/// that do not share its key, leaves every key's filtered subsequence
/// unchanged.
proof fn lemma_rotation_preserves_filter(s: Seq<Item>, i: int, p: int, pred: spec_fn(Item) -> bool)
    requires
        0 <= p <= i < s.len(),
        pred(s[i]) ==> forall|q: int| p <= q < i ==> !pred(#[trigger] s[q]),
    ensures
        s.remove(i).insert(p, s[i]).filter(pred) == s.filter(pred),
{
    let len = s.len() as int;
    let a = s.subrange(0, p);
    let b = s.subrange(p, i);
    let x = seq![s[i]];
    let c = s.subrange(i + 1, len);
    let t = s.remove(i).insert(p, s[i]);
    assert(s =~= a + ((b + x) + c));
    assert(t =~= a + ((x + b) + c));
    Seq::filter_distributes_over_add(a, (b + x) + c, pred);
    Seq::filter_distributes_over_add(b + x, c, pred);
    Seq::filter_distributes_over_add(a, (x + b) + c, pred);
    Seq::filter_distributes_over_add(x + b, c, pred);
    assert(pred(s[i]) ==> forall|j: int| 0 <= j < b.len() ==> !pred(#[trigger] b[j]));
    lemma_filter_swap_block(b, s[i], pred);
}

/// Sorts the records in place by the given field, ascending.  The sort is
/// stable: for every key, the records carrying that key keep their input
/// order, stated here as the preservation of every key's filtered
/// subsequence.  A descending display is a reversal of this result, so the
/// tie-break order among equal keys is fixed by the ascending sort.
pub fn sort_items<'a>(items: &mut Vec<&'a Item>, field: Field)
    ensures
        final(items)@.len() == old(items)@.len(),
        final(items)@.to_multiset() == old(items)@.to_multiset(),
        sorted_by(derefs(final(items)@), field_leq(field)),
        forall|rep: Item|
            #[trigger] derefs(final(items)@).filter(key_equiv(field, rep)) == derefs(
                old(items)@,
            ).filter(key_equiv(field, rep)),
{
    let comparer = Item::comparer_by(field);
    let ghost leq = field_leq(field);
    if items.len() == 0 {
        return ;
    }
    let mut i: usize = 1;
    while i < items.len()
        invariant
            1 <= i <= items@.len(),
            items@.len() == old(items)@.len(),
            comparer.field == field,
            leq == field_leq(field),
            items@.to_multiset() == old(items)@.to_multiset(),
            sorted_by(derefs(items@).take(i as int), leq),
            forall|rep: Item|
                #[trigger] derefs(items@).filter(key_equiv(field, rep)) == derefs(
                    old(items)@,
                ).filter(key_equiv(field, rep)),
        decreases items@.len() - i,
    {
        let ghost s = items@;
        let ghost ds = derefs(items@);
        let mut p: usize = 0;
        loop
            invariant_except_break
                p <= i,
                i < items@.len(),
                items@ == s,
                ds == derefs(items@),
                comparer.field == field,
                forall|q: int| 0 <= q < p ==> field_le(field, #[trigger] ds[q], ds[i as int]),
            ensures
                p <= i,
                i < items@.len(),
                items@ == s,
                ds == derefs(items@),
                forall|q: int| 0 <= q < p ==> field_le(field, #[trigger] ds[q], ds[i as int]),
                p < i ==> !field_le(field, ds[p as int], ds[i as int]),
            decreases i - p,
        {
            if p == i {
                break ;
            }
            let keep = comparer.le(&items[p], &items[i]);
            proof {
                assert(ds[p as int] == *s[p as int]);
                assert(ds[i as int] == *s[i as int]);
            }
            if !keep {
                break ;
            }
            p = p + 1;
        }
        let x = items.remove(i);
        items.insert(p, x);
        proof {
            let s2 = items@;
            assert(s2 == s.remove(i as int).insert(p as int, s[i as int]));
            let ds2 = derefs(s2);
            assert(ds2 =~= ds.remove(i as int).insert(p as int, ds[i as int])) by {
                assert forall|j: int| 0 <= j < ds2.len() implies ds2[j] == ds.remove(
                    i as int,
                ).insert(p as int, ds[i as int])[j] by {
                    assert(ds2[j] == *s2[j]);
                    assert(forall|k: int| 0 <= k < ds.len() ==> ds[k] == *(#[trigger] s[k]));
                }
            }
            lemma_remove_insert_permutes(s, i as int, p as int);
            lemma_remove_insert_permutes(ds, i as int, p as int);
            // sortedness of the extended prefix
            let t = ds.take(i as int).insert(p as int, ds[i as int]);
            assert(ds2.take(i as int + 1) =~= t);
            let xv = ds[i as int];
            if p < i {
                lemma_field_le_total(field, ds[p as int], xv);
                assert(field_le(field, xv, ds[p as int]));
            }
            assert forall|j: int, k: int| 0 <= j < k < t.len() implies #[trigger] leq(
                t[j],
                t[k],
            ) by {
                if j < p && k == p {
                    assert(t[j] == ds[j]);
                    assert(t[k] == xv);
                } else if j < p && k > p {
                    assert(t[j] == ds.take(i as int)[j]);
                    assert(t[k] == ds.take(i as int)[k - 1]);
                    assert(leq(ds.take(i as int)[j], ds.take(i as int)[k - 1]));
                } else if j == p && k > p {
                    assert(t[j] == xv);
                    assert(t[k] == ds.take(i as int)[k - 1]);
                    if k - 1 > p {
                        assert(leq(ds.take(i as int)[p as int], ds.take(i as int)[k - 1]));
                        lemma_field_le_trans(
                            field,
                            xv,
                            ds[p as int],
                            ds.take(i as int)[k - 1],
                        );
                    }
                } else if j > p {
                    assert(t[j] == ds.take(i as int)[j - 1]);
                    assert(t[k] == ds.take(i as int)[k - 1]);
                    assert(leq(ds.take(i as int)[j - 1], ds.take(i as int)[k - 1]));
                }
            }
            assert(sorted_by(ds2.take(i as int + 1), leq));
            // stability: every key's subsequence is untouched
            assert forall|rep: Item|
                #[trigger] derefs(items@).filter(key_equiv(field, rep)) == derefs(
                    old(items)@,
                ).filter(key_equiv(field, rep)) by {
                let pred = key_equiv(field, rep);
                assert(pred(xv) ==> forall|q: int| p <= q < i ==> !pred(#[trigger] ds[q])) by {
                    if pred(xv) {
                        assert forall|q: int| p <= q < i implies !pred(#[trigger] ds[q]) by {
                            if pred(ds[q]) {
                                // ds[q] and the moved record would share a key,
                                // yet the scan stopped strictly before q
                                lemma_field_le_trans(field, ds[q], rep, xv);
                                lemma_field_le_trans(field, xv, rep, ds[q]);
                                if q > p {
                                    assert(leq(ds.take(i as int)[p as int], ds.take(
                                        i as int,
                                    )[q]));
                                    lemma_field_le_trans(field, ds[p as int], ds[q], xv);
                                }
                            }
                        }
                    }
                }
                lemma_rotation_preserves_filter(ds, i as int, p as int, pred);
                assert(derefs(items@).filter(pred) == ds.filter(pred));
            }
        }
        i = i + 1;
    }
    proof {
        assert(derefs(items@).take(items@.len() as int) =~= derefs(items@));
    }
}

/// The records in reverse order, as a descending display shows them.
pub fn reversed<'a>(items: &Vec<&'a Item>) -> (r: Vec<&'a Item>)
    ensures
        r@ == items@.reverse(),
{
    let mut r: Vec<&'a Item> = Vec::new();
    let mut i: usize = items.len();
    while i > 0
        invariant
            i <= items@.len(),
            r@.len() == items@.len() - i,
            forall|j: int| 0 <= j < r@.len() ==> r@[j] == items@[items@.len() - 1 - j],
        decreases i,
    {
        r.push(items[i - 1]);
        i = i - 1;
    }
    proof {
        assert(r@ =~= items@.reverse());
    }
    r
}

} // verus!
