//! One inventory record: its typed, optionally absent attributes, its
//! derived sorted tag views, and its per-field column extraction.

use vstd::prelude::*;
use crate::column::aligned::Alignment;
use crate::column::column::Column;
use crate::column::content::Content;
use crate::input::meta::Formatters;
use crate::input::unit::{unit_applied, Unit};
use crate::text::join::{join_tags, join_with};
use crate::text::number::dec_chars;
use crate::text::sort::{
    chars_leq, lemma_chars_leq_total_ordering, sort_strings, sorted_tag_chars,
};
use crate::validators::validity::{
    contains_tag, tag_in, validity_of_tag, validity_of_tag_set, validity_matches, Validity,
};
use vstd::seq_lib::lemma_sorted_unique;

verus! {

/// A column a record can be shown, sorted, or summed by.
#[derive(Clone, Copy, PartialEq, Eq, Structural, Debug)]
pub enum Field {
    Kind,
    Name,
    Group,
    Weight,
    Price,
    Distances,
    Temperatures,
}

/// The name of a field, as it appears in a table header.
pub open spec fn field_name_chars(field: Field) -> Seq<char> {
    match field {
        Field::Kind => "kind"@,
        Field::Name => "name"@,
        Field::Group => "group"@,
        Field::Weight => "weight"@,
        Field::Price => "price"@,
        Field::Distances => "distances"@,
        Field::Temperatures => "temperatures"@,
    }
}

/// Builds the name of a field.
pub fn field_name(field: Field) -> (r: String)
    ensures
        r@ == field_name_chars(field),
{
    let mut r = String::new();
    match field {
        Field::Kind => r.append("kind"),
        Field::Name => r.append("name"),
        Field::Group => r.append("group"),
        Field::Weight => r.append("weight"),
        Field::Price => r.append("price"),
        Field::Distances => r.append("distances"),
        Field::Temperatures => r.append("temperatures"),
    }
    proof {
        assert(r@ =~= field_name_chars(field));
    }
    r
}

/// The characters of an optional string.
pub open spec fn opt_chars(o: Option<String>) -> Option<Seq<char>> {
    match o {
        Some(s) => Some(s@),
        None => None,
    }
}

/// One record of the inventory.  A price is a decimal held as a scaled
/// integer in minor units; the document loader chooses the scale.  A tag
/// set is held in its stored order; the sorted views are derived.
#[derive(Debug)]
pub struct Item {
    pub kind: String,
    pub name: Option<String>,
    pub group: Option<String>,
    pub weight: Option<i32>,
    pub price: Option<i64>,
    pub distances: Option<Vec<String>>,
    pub temperatures: Option<Vec<String>>,
}

impl Item {
    /// The record's identity in messages: its name when present, else its
    /// kind.
    pub open spec fn id_chars(&self) -> Seq<char> {
        match self.name {
            Some(n) => n@,
            None => self.kind@,
        }
    }

    /// The stored distance tags, as character sequences; empty when absent.
    pub open spec fn stored_distances(&self) -> Seq<Seq<char>> {
        match self.distances {
            Some(d) => d.deep_view(),
            None => Seq::empty(),
        }
    }

    /// The stored temperature tags, as character sequences; empty when
    /// absent.
    pub open spec fn stored_temperatures(&self) -> Seq<Seq<char>> {
        match self.temperatures {
            Some(t) => t.deep_view(),
            None => Seq::empty(),
        }
    }

    /// Well-formed: each tag list holds distinct tags, as befits a set.
    /// The document loader establishes this; nothing here mutates a record,
    /// so it is preserved for the record's lifetime.
    pub open spec fn wf(&self) -> bool {
        &&& self.stored_distances().no_duplicates()
        &&& self.stored_temperatures().no_duplicates()
    }

    /// The field records are sorted by when the caller names none.
    pub fn default_field() -> (r: Field)
        ensures
            r == Field::Name,
    {
        Field::Name
    }

    /// The record's identity for error messages.
    pub fn id(&self) -> (r: &str)
        ensures
            r@ == self.id_chars(),
    {
        match &self.name {
            Some(n) => n.as_str(),
            None => self.kind.as_str(),
        }
    }

    /// The record's group tag, if any.
    pub fn group(&self) -> (r: Option<&str>)
        ensures
            match r {
                Some(g) => opt_chars(self.group) == Some(g@),
                None => self.group is None,
            },
    {
        match &self.group {
            Some(g) => Some(g.as_str()),
            None => None,
        }
    }

    /// The record's weight, absent read as zero.
    pub fn weight(&self) -> (r: i32)
        ensures
            r == match self.weight {
                Some(w) => w,
                None => 0i32,
            },
    {
        match self.weight {
            Some(w) => w,
            None => 0,
        }
    }

    /// The record's price in minor units, absent read as zero.
    pub fn price(&self) -> (r: i64)
        ensures
            r == match self.price {
                Some(p) => p,
                None => 0i64,
            },
    {
        match self.price {
            Some(p) => p,
            None => 0,
        }
    }

    /// Whether the record carries the given distance tag.
    pub fn is_distance(&self, distance: &str) -> (r: bool)
        ensures
            r == tag_in(self.stored_distances(), distance@),
    {
        match &self.distances {
            Some(d) => contains_tag(d, distance),
            None => {
                proof {
                    assert(!tag_in(self.stored_distances(), distance@));
                }
                false
            },
        }
    }

    /// Whether the record carries the given temperature tag.
    pub fn is_temperature(&self, temperature: &str) -> (r: bool)
        ensures
            r == tag_in(self.stored_temperatures(), temperature@),
    {
        match &self.temperatures {
            Some(t) => contains_tag(t, temperature),
            None => {
                proof {
                    assert(!tag_in(self.stored_temperatures(), temperature@));
                }
                false
            },
        }
    }

    /// Checks the record's group tag against an allowed vocabulary.
    pub fn group_validity(&self, valid_groups: &Vec<String>) -> (r: Validity)
        ensures
            validity_matches(r, validity_of_tag(opt_chars(self.group), valid_groups.deep_view())),
    {
        match &self.group {
            None => Validity::Missing,
            Some(group) => {
                if contains_tag(valid_groups, group.as_str()) {
                    Validity::Valid
                } else {
                    Validity::Invalid(group.clone())
                }
            },
        }
    }

    /// Checks the record's distance tags against an allowed vocabulary.
    /// An absent or empty tag set is missing; otherwise the first stored
    /// tag outside the vocabulary is the reported offender.
    pub fn distances_validity(&self, valid_distances: &Vec<String>) -> (r: Validity)
        ensures
            validity_matches(
                r,
                validity_of_tag_set(
                    match self.distances {
                        Some(d) => Some(d.deep_view()),
                        None => None,
                    },
                    valid_distances.deep_view(),
                ),
            ),
    {
        match &self.distances {
            None => Validity::Missing,
            Some(distances) => tag_set_validity(distances, valid_distances),
        }
    }

    /// Checks the record's temperature tags against an allowed vocabulary,
    /// under the same policy as the distance tags.
    pub fn temperatures_validity(&self, valid_temperatures: &Vec<String>) -> (r: Validity)
        ensures
            validity_matches(
                r,
                validity_of_tag_set(
                    match self.temperatures {
                        Some(t) => Some(t.deep_view()),
                        None => None,
                    },
                    valid_temperatures.deep_view(),
                ),
            ),
    {
        match &self.temperatures {
            None => Validity::Missing,
            Some(temperatures) => tag_set_validity(temperatures, valid_temperatures),
        }
    }

    /// The record's distance tags in ascending character order.
    pub fn ordered_distances(&self) -> (r: Vec<String>)
        ensures
            r.deep_view() == sorted_tag_chars(self.stored_distances()),
    {
        match &self.distances {
            Some(d) => sorted_copy(d),
            None => empty_sorted(),
        }
    }

    /// The record's temperature tags in ascending character order.
    pub fn ordered_temperatures(&self) -> (r: Vec<String>)
        ensures
            r.deep_view() == sorted_tag_chars(self.stored_temperatures()),
    {
        match &self.temperatures {
            Some(t) => sorted_copy(t),
            None => empty_sorted(),
        }
    }
}

/// The alignment a field's cells are shown with: numeric fields sit flush
/// right, textual and tag fields flush left.
pub open spec fn field_alignment(field: Field) -> Alignment {
    match field {
        Field::Weight => Alignment::Right,
        Field::Price => Alignment::Right,
        _ => Alignment::Left,
    }
}

/// The text a record shows in a field's column: numeric fields carry their
/// unit, tag fields are their sorted tags joined with " / ", and an absent
/// value (or an absent-or-empty tag set) shows nothing at all.
pub open spec fn column_chars(
    item: Item,
    field: Field,
    weight_unit: Unit,
    price_unit: Unit,
) -> Option<Seq<char>> {
    match field {
        Field::Kind => Some(item.kind@),
        Field::Name => opt_chars(item.name),
        Field::Group => opt_chars(item.group),
        Field::Weight => match item.weight {
            Some(w) => Some(unit_applied(weight_unit, dec_chars(w as int))),
            None => None,
        },
        Field::Price => match item.price {
            Some(p) => Some(unit_applied(price_unit, dec_chars(p as int))),
            None => None,
        },
        Field::Distances => if item.stored_distances().len() == 0 {
            None
        } else {
            Some(join_with(sorted_tag_chars(item.stored_distances()), " / "@))
        },
        Field::Temperatures => if item.stored_temperatures().len() == 0 {
            None
        } else {
            Some(join_with(sorted_tag_chars(item.stored_temperatures()), " / "@))
        },
    }
}

/// A copy of an optional string.
fn clone_opt(o: &Option<String>) -> (r: Option<String>)
    ensures
        r == *o,
{
    match o {
        Some(s) => Some(s.clone()),
        None => None,
    }
}

impl Item {
    /// The record's cell for one field: the field's alignment paired with
    /// the extracted content.
    pub fn column(&self, field: Field, formatters: &Formatters<'_>) -> (r: Column)
        ensures
            r.alignment == field_alignment(field),
            opt_chars(r.content.0) == column_chars(
                *self,
                field,
                *formatters.weight,
                *formatters.price,
            ),
    {
        match field {
            Field::Kind => Column::new(Alignment::Left, Content(Some(self.kind.clone()))),
            Field::Name => Column::new(Alignment::Left, Content(clone_opt(&self.name))),
            Field::Group => Column::new(Alignment::Left, Content(clone_opt(&self.group))),
            Field::Weight => {
                match self.weight {
                    Some(w) => {
                        let mut text = String::new();
                        formatters.weight.format_to_string(w as i128, &mut text);
                        Column::new(Alignment::Right, Content(Some(text)))
                    },
                    None => Column::new(Alignment::Right, Content(None)),
                }
            },
            Field::Price => {
                match self.price {
                    Some(p) => {
                        let mut text = String::new();
                        formatters.price.format_to_string(p as i128, &mut text);
                        Column::new(Alignment::Right, Content(Some(text)))
                    },
                    None => Column::new(Alignment::Right, Content(None)),
                }
            },
            Field::Distances => {
                let ordered = self.ordered_distances();
                if ordered.len() == 0 {
                    proof {
                        lemma_sorted_len(self.stored_distances());
                    }
                    Column::new(Alignment::Left, Content(None))
                } else {
                    proof {
                        lemma_sorted_len(self.stored_distances());
                    }
                    Column::new(Alignment::Left, Content(Some(join_tags(&ordered, " / "))))
                }
            },
            Field::Temperatures => {
                let ordered = self.ordered_temperatures();
                if ordered.len() == 0 {
                    proof {
                        lemma_sorted_len(self.stored_temperatures());
                    }
                    Column::new(Alignment::Left, Content(None))
                } else {
                    proof {
                        lemma_sorted_len(self.stored_temperatures());
                    }
                    Column::new(Alignment::Left, Content(Some(join_tags(&ordered, " / "))))
                }
            },
        }
    }

    /// The record's cells for the given fields, in order.
    pub fn columns(&self, fields: &Vec<Field>, formatters: &Formatters<'_>) -> (r: Vec<Column>)
        ensures
            r@.len() == fields@.len(),
            forall|i: int|
                0 <= i < r@.len() ==> (#[trigger] r@[i]).alignment == field_alignment(fields@[i])
                    && opt_chars(r@[i].content.0) == column_chars(
                    *self,
                    fields@[i],
                    *formatters.weight,
                    *formatters.price,
                ),
    {
        let mut r: Vec<Column> = Vec::new();
        let mut i: usize = 0;
        while i < fields.len()
            invariant
                i <= fields@.len(),
                r@.len() == i,
                forall|j: int|
                    0 <= j < i ==> (#[trigger] r@[j]).alignment == field_alignment(fields@[j])
                        && opt_chars(r@[j].content.0) == column_chars(
                        *self,
                        fields@[j],
                        *formatters.weight,
                        *formatters.price,
                    ),
            decreases fields@.len() - i,
        {
            let column = self.column(fields[i], formatters);
            r.push(column);
            i = i + 1;
        }
        r
    }
}

/// Law: the derived sorted tag views of a well-formed record hold distinct
/// tags, so a rendered tag cell shows each tag of the set exactly once.
pub proof fn lemma_wf_ordered_tags_distinct(item: Item)
    requires
        item.wf(),
    ensures
        sorted_tag_chars(item.stored_distances()).no_duplicates(),
        sorted_tag_chars(item.stored_temperatures()).no_duplicates(),
{
    crate::text::sort::lemma_sorted_tags_distinct(item.stored_distances());
    crate::text::sort::lemma_sorted_tags_distinct(item.stored_temperatures());
}

/// Sorting tags keeps their number.
proof fn lemma_sorted_len(tags: Seq<Seq<char>>)
    ensures
        sorted_tag_chars(tags).len() == tags.len(),
{
    lemma_chars_leq_total_ordering();
    tags.lemma_sort_by_ensures(chars_leq());
    vstd::seq_lib::to_multiset_len(tags);
    vstd::seq_lib::to_multiset_len(sorted_tag_chars(tags));
}

/// Checks every tag of a non-absent tag set against the vocabulary; an
/// empty set is missing, and the first tag outside the vocabulary, in
/// stored order, is the reported offender.
fn tag_set_validity(tags: &Vec<String>, allowed: &Vec<String>) -> (r: Validity)
    ensures
        validity_matches(r, validity_of_tag_set(Some(tags.deep_view()), allowed.deep_view())),
{
    if tags.len() == 0 {
        return Validity::Missing;
    }
    let ghost ts = tags.deep_view();
    let ghost voc = allowed.deep_view();
    let mut i: usize = 0;
    while i < tags.len()
        invariant
            i <= tags@.len(),
            ts == tags.deep_view(),
            voc == allowed.deep_view(),
            ts.len() == tags@.len(),
            forall|j: int| 0 <= j < i ==> tag_in(voc, #[trigger] ts[j]),
        decreases tags@.len() - i,
    {
        proof {
            assert(ts[i as int] == tags@[i as int]@);
        }
        if !contains_tag(allowed, tags[i].as_str()) {
            proof {
                lemma_first_offender_at(ts, voc, i as int);
            }
            return Validity::Invalid(tags[i].clone());
        }
        i = i + 1;
    }
    proof {
        lemma_no_offender(ts, voc);
    }
    Validity::Valid
}

/// If every tag before `i` is in the vocabulary and the tag at `i` is not,
/// the tag at `i` is the first offender.
proof fn lemma_first_offender_at(ts: Seq<Seq<char>>, voc: Seq<Seq<char>>, i: int)
    requires
        0 <= i < ts.len(),
        forall|j: int| 0 <= j < i ==> tag_in(voc, #[trigger] ts[j]),
        !tag_in(voc, ts[i]),
    ensures
        crate::validators::validity::first_offender(ts, voc) == Some(ts[i]),
    decreases i,
{
    if i > 0 {
        assert(ts.skip(1)[i - 1] == ts[i]);
        assert(forall|j: int| 0 <= j < i - 1 ==> ts.skip(1)[j] == #[trigger] ts[j + 1]);
        lemma_first_offender_at(ts.skip(1), voc, i - 1);
    }
}

/// If every tag is in the vocabulary, there is no offender.
proof fn lemma_no_offender(ts: Seq<Seq<char>>, voc: Seq<Seq<char>>)
    requires
        forall|j: int| 0 <= j < ts.len() ==> tag_in(voc, #[trigger] ts[j]),
    ensures
        crate::validators::validity::first_offender(ts, voc) is None,
    decreases ts.len(),
{
    if ts.len() > 0 {
        assert(forall|j: int| 0 <= j < ts.len() - 1 ==> ts.skip(1)[j] == #[trigger] ts[j + 1]);
        lemma_no_offender(ts.skip(1), voc);
    }
}

/// A copy of the tags in ascending character order.
fn sorted_copy(tags: &Vec<String>) -> (r: Vec<String>)
    ensures
        r.deep_view() == sorted_tag_chars(tags.deep_view()),
{
    let mut copy: Vec<String> = Vec::new();
    let mut i: usize = 0;
    while i < tags.len()
        invariant
            i <= tags@.len(),
            copy@.len() == i,
            forall|j: int| 0 <= j < i ==> copy@[j] == #[trigger] tags@[j],
        decreases tags@.len() - i,
    {
        copy.push(tags[i].clone());
        i = i + 1;
    }
    proof {
        assert(copy.deep_view() =~= tags.deep_view());
    }
    sort_strings(&mut copy);
    copy
}

/// The sorted view of an absent tag set: no tags at all.
fn empty_sorted() -> (r: Vec<String>)
    ensures
        r.deep_view() == sorted_tag_chars(Seq::empty()),
{
    let r: Vec<String> = Vec::new();
    proof {
        lemma_chars_leq_total_ordering();
        Seq::<Seq<char>>::empty().lemma_sort_by_ensures(chars_leq());
        assert(r.deep_view() =~= Seq::<Seq<char>>::empty());
        lemma_sorted_unique(
            r.deep_view(),
            sorted_tag_chars(Seq::empty()),
            chars_leq(),
        );
    }
    r
}

} // verus!
