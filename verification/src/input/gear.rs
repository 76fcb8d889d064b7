//! The document: metadata plus the two record collections, and the
//! combined filter-and-validate query over them.

use vstd::prelude::*;
use crate::error::Error;
use crate::filters::is_in_distances::IsInDistances;
use crate::filters::is_in_groups::IsInGroups;
use crate::filters::is_in_temperatures::IsInTemperatures;
use crate::input::item::Item;
use crate::input::meta::Meta;
use crate::validators::validator::Validator;
use crate::validators::validity::tag_in;

verus! {

/// The records of an optional collection; none at all when it is absent.
pub open spec fn opt_items(o: Option<Vec<Item>>) -> Seq<Item> {
    match o {
        Some(v) => v@,
        None => Seq::empty(),
    }
}

/// The tag characters of an optional tag list.
pub open spec fn opt_tags(o: Option<Vec<String>>) -> Option<Seq<Seq<char>>> {
    match o {
        Some(v) => Some(v.deep_view()),
        None => None,
    }
}

/// Whether a record passes the requested filters: each present filter must
/// accept it, and an absent filter accepts everything.
pub open spec fn passes_filters(
    item: Item,
    groups: Option<Seq<Seq<char>>>,
    distances: Option<Seq<Seq<char>>>,
    temperatures: Option<Seq<Seq<char>>>,
) -> bool {
    &&& match groups {
        Some(g) => match item.group {
            Some(x) => tag_in(g, x@),
            None => false,
        },
        None => true,
    }
    &&& match distances {
        Some(d) => exists|i: int|
            0 <= i < d.len() && tag_in(item.stored_distances(), #[trigger] d[i]),
        None => true,
    }
    &&& match temperatures {
        Some(t) => exists|i: int|
            0 <= i < t.len() && tag_in(item.stored_temperatures(), #[trigger] t[i]),
        None => true,
    }
}

/// The filter predicate over records, as a single relation value.
pub open spec fn passes(
    groups: Option<Seq<Seq<char>>>,
    distances: Option<Seq<Seq<char>>>,
    temperatures: Option<Seq<Seq<char>>>,
) -> spec_fn(Item) -> bool {
    |item: Item| passes_filters(item, groups, distances, temperatures)
}

/// The failure the first failing active validator reports for a record,
/// if any; the group validator runs first, then distances, then
/// temperatures.
pub open spec fn item_failure(item: Item, meta: Meta) -> Option<Seq<char>> {
    let group_failure = match meta.spec_groups() {
        Some(g) => g.spec_failure(item),
        None => None,
    };
    let distances_failure = match meta.spec_distances() {
        Some(d) => d.spec_failure(item),
        None => None,
    };
    let temperatures_failure = match meta.spec_temperatures() {
        Some(t) => t.spec_failure(item),
        None => None,
    };
    if group_failure is Some {
        group_failure
    } else if distances_failure is Some {
        distances_failure
    } else {
        temperatures_failure
    }
}

/// The failure of the first record, in order, that some active validator
/// rejects; none when every record passes every active validator.
pub open spec fn first_failure(items: Seq<Item>, meta: Meta) -> Option<Seq<char>>
    decreases items.len(),
{
    if items.len() == 0 {
        None
    } else {
        match item_failure(items[0], meta) {
            Some(m) => Some(m),
            None => first_failure(items.skip(1), meta),
        }
    }
}

/// The failure of the first validator in the list that rejects the record.
pub open spec fn validators_failure(item: Item, validators: Seq<Validator>) -> Option<Seq<char>>
    decreases validators.len(),
{
    if validators.len() == 0 {
        None
    } else {
        match validators[0].spec_failure(item) {
            Some(m) => Some(m),
            None => validators_failure(item, validators.skip(1)),
        }
    }
}

/// Appending one validator to the list moves its check to the end.
proof fn lemma_validators_failure_push(item: Item, validators: Seq<Validator>, v: Validator)
    ensures
        validators_failure(item, validators.push(v)) == match validators_failure(
            item,
            validators,
        ) {
            Some(m) => Some(m),
            None => v.spec_failure(item),
        },
    decreases validators.len(),
{
    let pushed = validators.push(v);
    if validators.len() == 0 {
        assert(pushed[0] == v);
        assert(pushed.skip(1) =~= Seq::<Validator>::empty());
        assert(validators_failure(item, pushed.skip(1)) is None);
        assert(validators_failure(item, validators) is None);
    } else {
        assert(pushed[0] == validators[0]);
        assert(pushed.skip(1) =~= validators.skip(1).push(v));
        lemma_validators_failure_push(item, validators.skip(1), v);
    }
}

/// A failure-free prefix does not change where the first failure lies.
proof fn lemma_first_failure_skip_clean(a: Seq<Item>, b: Seq<Item>, meta: Meta)
    requires
        forall|i: int| 0 <= i < a.len() ==> item_failure(#[trigger] a[i], meta) is None,
    ensures
        first_failure(a + b, meta) == first_failure(b, meta),
    decreases a.len(),
{
    if a.len() == 0 {
        assert(a + b =~= b);
    } else {
        assert((a + b)[0] == a[0]);
        assert((a + b).skip(1) =~= a.skip(1) + b);
        assert(forall|i: int|
            0 <= i < a.skip(1).len() ==> item_failure(#[trigger] a.skip(1)[i], meta) is None);
        lemma_first_failure_skip_clean(a.skip(1), b, meta);
    }
}

/// A failure in a prefix is the first failure of any extension of it.
proof fn lemma_first_failure_in_prefix(a: Seq<Item>, b: Seq<Item>, meta: Meta)
    requires
        first_failure(a, meta) is Some,
    ensures
        first_failure(a + b, meta) == first_failure(a, meta),
    decreases a.len(),
{
    assert((a + b)[0] == a[0]);
    assert((a + b).skip(1) =~= a.skip(1) + b);
    if item_failure(a[0], meta) is None {
        lemma_first_failure_in_prefix(a.skip(1), b, meta);
    }
}

/// A sequence whose records all pass every active validator has no first
/// failure.
proof fn lemma_first_failure_none(items: Seq<Item>, meta: Meta)
    requires
        forall|i: int| 0 <= i < items.len() ==> item_failure(#[trigger] items[i], meta) is None,
    ensures
        first_failure(items, meta) is None,
{
    lemma_first_failure_skip_clean(items, Seq::empty(), meta);
    assert(items + Seq::<Item>::empty() =~= items);
}

/// Filtering a one-record sequence keeps or drops that record.
pub proof fn lemma_filter_singleton(x: Item, pred: spec_fn(Item) -> bool)
    ensures
        seq![x].filter(pred) == if pred(x) {
            seq![x]
        } else {
            Seq::<Item>::empty()
        },
{
    reveal_with_fuel(Seq::filter, 2);
    assert(seq![x].drop_last() =~= Seq::<Item>::empty());
    if pred(x) {
        assert(seq![x].filter(pred) =~= seq![x]);
    } else {
        assert(seq![x].filter(pred) =~= Seq::<Item>::empty());
    }
}

/// Filtering one record more extends the filtered prefix by it or not at
/// all.
pub proof fn lemma_filter_take_step(s: Seq<Item>, pred: spec_fn(Item) -> bool, k: int)
    requires
        0 <= k < s.len(),
    ensures
        s.take(k + 1).filter(pred) == if pred(s[k]) {
            s.take(k).filter(pred).push(s[k])
        } else {
            s.take(k).filter(pred)
        },
{
    assert(s.take(k + 1) =~= s.take(k) + seq![s[k]]);
    Seq::filter_distributes_over_add(s.take(k), seq![s[k]], pred);
    lemma_filter_singleton(s[k], pred);
    if pred(s[k]) {
        assert(s.take(k).filter(pred) + seq![s[k]] =~= s.take(k).filter(pred).push(s[k]));
    } else {
        assert(s.take(k).filter(pred) + Seq::<Item>::empty() =~= s.take(k).filter(pred));
    }
}

/// The records of a reference list, dereferenced.
pub open spec fn derefs(s: Seq<&Item>) -> Seq<Item> {
    s.map_values(|x: &Item| *x)
}

/// The filters a query requested, at most one per tag family.
struct FilterSet {
    groups: Option<IsInGroups>,
    distances: Option<IsInDistances>,
    temperatures: Option<IsInTemperatures>,
}

impl FilterSet {
    /// The accepted group values, as characters.
    spec fn g_view(&self) -> Option<Seq<Seq<char>>> {
        match self.groups {
            Some(f) => Some(f.groups.deep_view()),
            None => None,
        }
    }

    /// The accepted distance values, as characters.
    spec fn d_view(&self) -> Option<Seq<Seq<char>>> {
        match self.distances {
            Some(f) => Some(f.distances.deep_view()),
            None => None,
        }
    }

    /// The accepted temperature values, as characters.
    spec fn t_view(&self) -> Option<Seq<Seq<char>>> {
        match self.temperatures {
            Some(f) => Some(f.temperatures.deep_view()),
            None => None,
        }
    }

    /// Builds the filters from whichever filter values are present.
    fn from_options(
        groups: Option<Vec<String>>,
        distances: Option<Vec<String>>,
        temperatures: Option<Vec<String>>,
    ) -> (r: Self)
        ensures
            r.g_view() == opt_tags(groups),
            r.d_view() == opt_tags(distances),
            r.t_view() == opt_tags(temperatures),
    {
        FilterSet {
            groups: match groups {
                Some(values) => Some(IsInGroups::from_values(values)),
                None => None,
            },
            distances: match distances {
                Some(values) => Some(IsInDistances::from_values(values)),
                None => None,
            },
            temperatures: match temperatures {
                Some(values) => Some(IsInTemperatures::from_values(values)),
                None => None,
            },
        }
    }

    /// Whether the record passes every present filter.
    fn passes_item(&self, item: &Item) -> (r: bool)
        ensures
            r == passes_filters(*item, self.g_view(), self.d_view(), self.t_view()),
    {
        let group_ok = match &self.groups {
            Some(f) => f.filter(item),
            None => true,
        };
        let distances_ok = match &self.distances {
            Some(f) => f.filter(item),
            None => true,
        };
        let temperatures_ok = match &self.temperatures {
            Some(f) => f.filter(item),
            None => true,
        };
        proof {
            assert(group_ok == (match self.g_view() {
                Some(g) => match item.group {
                    Some(x) => tag_in(g, x@),
                    None => false,
                },
                None => true,
            }));
            if self.distances is Some {
                let f = self.distances->Some_0;
                let ds = f.distances.deep_view();
                if f.spec_accepts(*item) {
                    let w = choose|i: int|
                        0 <= i < ds.len() && tag_in(item.stored_distances(), #[trigger] ds[i]);
                    assert(0 <= w < ds.len() && tag_in(item.stored_distances(), ds[w]));
                }
            }
            assert(distances_ok == (match self.d_view() {
                Some(ds) => exists|i: int|
                    0 <= i < ds.len() && tag_in(item.stored_distances(), #[trigger] ds[i]),
                None => true,
            }));
            if self.temperatures is Some {
                let f = self.temperatures->Some_0;
                let ts = f.temperatures.deep_view();
                if f.spec_accepts(*item) {
                    let w = choose|i: int|
                        0 <= i < ts.len() && tag_in(item.stored_temperatures(), #[trigger] ts[i]);
                    assert(0 <= w < ts.len() && tag_in(item.stored_temperatures(), ts[w]));
                }
            }
            assert(temperatures_ok == (match self.t_view() {
                Some(ts) => exists|i: int|
                    0 <= i < ts.len() && tag_in(item.stored_temperatures(), #[trigger] ts[i]),
                None => true,
            }));
            assert((group_ok && distances_ok && temperatures_ok) == passes_filters(
                *item,
                self.g_view(),
                self.d_view(),
                self.t_view(),
            ));
        }
        group_ok && distances_ok && temperatures_ok
    }
}

/// Law: a successful query returns only records for which every requested
/// filter evaluates true.
pub proof fn lemma_query_keeps_only_matching(
    gear: Gear,
    is_all: bool,
    is_base: bool,
    is_consumables: bool,
    groups: Option<Seq<Seq<char>>>,
    distances: Option<Seq<Seq<char>>>,
    temperatures: Option<Seq<Seq<char>>>,
    results: Seq<&Item>,
)
    requires
        derefs(results) == gear.kept_items(
            is_all,
            is_base,
            is_consumables,
            groups,
            distances,
            temperatures,
        ),
    ensures
        forall|i: int|
            0 <= i < results.len() ==> passes_filters(
                *(#[trigger] results[i]),
                groups,
                distances,
                temperatures,
            ),
{
    let selected = gear.selected_items(is_all, is_base, is_consumables);
    let pred = passes(groups, distances, temperatures);
    assert forall|i: int| 0 <= i < results.len() implies passes_filters(
        *(#[trigger] results[i]),
        groups,
        distances,
        temperatures,
    ) by {
        selected.lemma_filter_pred(pred, i);
        assert(derefs(results)[i] == *results[i]);
    }
}

/// A loaded inventory document.  Immutable after load; the two record
/// collections may each be absent.
pub struct Gear {
    pub meta: Meta,
    pub base: Option<Vec<Item>>,
    pub consumables: Option<Vec<Item>>,
}

impl Gear {
    /// Well-formed: every vocabulary and every record's tag lists hold
    /// distinct values, as the document's sets do.  The document loader
    /// establishes this, and the document is immutable afterwards; no
    /// query depends on it, but a loaded document always satisfies it.
    pub open spec fn wf(&self) -> bool {
        &&& match self.meta.groups {
            Some(g) => g.wf(),
            None => true,
        }
        &&& match self.meta.distances {
            Some(d) => d.wf(),
            None => true,
        }
        &&& match self.meta.temperatures {
            Some(t) => t.wf(),
            None => true,
        }
        &&& forall|i: int|
            0 <= i < opt_items(self.base).len() ==> (#[trigger] opt_items(self.base)[i]).wf()
        &&& forall|i: int|
            0 <= i < opt_items(self.consumables).len() ==> (#[trigger] opt_items(
                self.consumables,
            )[i]).wf()
    }

    /// The document's metadata.
    pub fn meta(&self) -> (r: &Meta)
        ensures
            *r == self.meta,
    {
        &self.meta
    }

    /// The records selected by the three selection flags: the base
    /// collection, then the consumables, either included when chosen
    /// directly or by selecting all.
    pub open spec fn selected_items(
        &self,
        is_all: bool,
        is_base: bool,
        is_consumables: bool,
    ) -> Seq<Item> {
        (if is_all || is_base {
            opt_items(self.base)
        } else {
            Seq::empty()
        }) + (if is_all || is_consumables {
            opt_items(self.consumables)
        } else {
            Seq::empty()
        })
    }

    /// The selected records that pass the requested filters, in collection
    /// order.
    pub open spec fn kept_items(
        &self,
        is_all: bool,
        is_base: bool,
        is_consumables: bool,
        groups: Option<Seq<Seq<char>>>,
        distances: Option<Seq<Seq<char>>>,
        temperatures: Option<Seq<Seq<char>>>,
    ) -> Seq<Item> {
        self.selected_items(is_all, is_base, is_consumables).filter(
            passes(groups, distances, temperatures),
        )
    }

    /// Builds the validator list from whichever vocabularies the metadata
    /// holds, in the fixed order: groups, distances, temperatures.  One
    /// validator stands for each present, non-empty vocabulary, wrapping
    /// exactly that vocabulary; which filters a query requested plays no
    /// part.
    pub fn validators(&self) -> (r: Vec<Validator<'_>>)
        ensures
            forall|i: int| 0 <= i < r@.len() ==> (#[trigger] r@[i]).wf(),
            forall|item: Item|
                #[trigger] validators_failure(item, r@) == item_failure(item, self.meta),
            ({
                let n_g: int = if self.meta.spec_groups() is Some {
                    1
                } else {
                    0
                };
                let n_d: int = if self.meta.spec_distances() is Some {
                    1
                } else {
                    0
                };
                let n_t: int = if self.meta.spec_temperatures() is Some {
                    1
                } else {
                    0
                };
                &&& r@.len() == n_g + n_d + n_t
                &&& (self.meta.spec_groups() matches Some(gv) ==> r@[0] matches
                    Validator::GroupValues(g) && *g == gv)
                &&& (self.meta.spec_distances() matches Some(dv) ==> r@[n_g] matches
                    Validator::DistancesValues(d) && *d == dv)
                &&& (self.meta.spec_temperatures() matches Some(tv) ==> r@[n_g + n_d] matches
                    Validator::TemperaturesValues(t) && *t == tv)
            }),
    {
        let mut validators: Vec<Validator<'_>> = Vec::new();
        match self.meta.groups() {
            Some(g) => {
                let ghost pre = validators@;
                validators.push(Validator::GroupValues(g));
                proof {
                    assert forall|item: Item|
                        #[trigger] validators_failure(item, validators@) == (match
                            self.meta.spec_groups() {
                            Some(gv) => gv.spec_failure(item),
                            None => None,
                        }) by {
                        lemma_validators_failure_push(item, pre, Validator::GroupValues(g));
                    }
                }
            },
            None => {},
        }
        let ghost after_groups = validators@;
        let ghost group_failure = |item: Item|
            match self.meta.spec_groups() {
                Some(gv) => gv.spec_failure(item),
                None => None,
            };
        proof {
            assert(forall|item: Item|
                #[trigger] validators_failure(item, after_groups) == group_failure(item));
        }
        match self.meta.distances() {
            Some(d) => {
                let ghost pre = validators@;
                validators.push(Validator::DistancesValues(d));
                proof {
                    assert forall|item: Item|
                        #[trigger] validators_failure(item, validators@) == (match group_failure(
                            item,
                        ) {
                            Some(m) => Some(m),
                            None => match self.meta.spec_distances() {
                                Some(dv) => dv.spec_failure(item),
                                None => None,
                            },
                        }) by {
                        lemma_validators_failure_push(item, pre, Validator::DistancesValues(d));
                    }
                }
            },
            None => {},
        }
        let ghost after_distances = validators@;
        let ghost distances_failure = |item: Item|
            match group_failure(item) {
                Some(m) => Some(m),
                None => match self.meta.spec_distances() {
                    Some(dv) => dv.spec_failure(item),
                    None => None,
                },
            };
        proof {
            assert(forall|item: Item|
                #[trigger] validators_failure(item, after_distances) == distances_failure(item));
        }
        match self.meta.temperatures() {
            Some(t) => {
                let ghost pre = validators@;
                validators.push(Validator::TemperaturesValues(t));
                proof {
                    assert forall|item: Item|
                        #[trigger] validators_failure(item, validators@) == (match
                            distances_failure(item) {
                            Some(m) => Some(m),
                            None => match self.meta.spec_temperatures() {
                                Some(tv) => tv.spec_failure(item),
                                None => None,
                            },
                        }) by {
                        lemma_validators_failure_push(item, pre, Validator::TemperaturesValues(t));
                    }
                }
            },
            None => {},
        }
        proof {
            assert forall|item: Item|
                #[trigger] validators_failure(item, validators@) == item_failure(
                    item,
                    self.meta,
                ) by {
                assert(validators_failure(item, validators@) == (match distances_failure(item) {
                    Some(m) => Some(m),
                    None => match self.meta.spec_temperatures() {
                        Some(tv) => tv.spec_failure(item),
                        None => None,
                    },
                }));
            }
        }
        validators
    }

    /// Selects, filters, and validates records in one pass.  The selected
    /// collections are walked in storage order, base before consumables;
    /// records failing a filter are silently dropped, and the first record
    /// that an active validator rejects aborts the whole query with that
    /// validator's error.  Selecting nothing yields an empty result.
    pub fn filter_and_validate<'a>(
        &'a self,
        is_all: bool,
        is_base: bool,
        is_consumables: bool,
        groups: Option<Vec<String>>,
        distances: Option<Vec<String>>,
        temperatures: Option<Vec<String>>,
    ) -> (r: Result<Vec<&'a Item>, Error>)
        ensures
            ({
                let kept = self.kept_items(
                    is_all,
                    is_base,
                    is_consumables,
                    opt_tags(groups),
                    opt_tags(distances),
                    opt_tags(temperatures),
                );
                match r {
                    Ok(v) => {
                        &&& first_failure(kept, self.meta) is None
                        &&& derefs(v@) == kept
                    },
                    Err(e) => Some(e.message_chars()) == first_failure(kept, self.meta),
                }
            }),
    {
        let ghost g = opt_tags(groups);
        let ghost d = opt_tags(distances);
        let ghost t = opt_tags(temperatures);
        let ghost pred = passes(g, d, t);
        let filters = FilterSet::from_options(groups, distances, temperatures);
        let validators = self.validators();
        let mut results: Vec<&'a Item> = Vec::new();
        proof {
            assert(derefs(results@) =~= Seq::<Item>::empty());
        }
        let ghost sel1: Seq<Item> = if is_all || is_base {
            opt_items(self.base)
        } else {
            Seq::empty()
        };
        let ghost sel2: Seq<Item> = if is_all || is_consumables {
            opt_items(self.consumables)
        } else {
            Seq::empty()
        };
        let ghost kept = (sel1 + sel2).filter(pred);
        proof {
            Seq::filter_distributes_over_add(sel1, sel2, pred);
        }
        if is_all || is_base {
            match &self.base {
                Some(base) => {
                    match collect_into(
                        base,
                        &filters,
                        &validators,
                        &mut results,
                        Ghost(self.meta),
                        Ghost(g),
                        Ghost(d),
                        Ghost(t),
                    ) {
                        Ok(()) => {},
                        Err(e) => {
                            proof {
                                lemma_first_failure_in_prefix(
                                    sel1.filter(pred),
                                    sel2.filter(pred),
                                    self.meta,
                                );
                            }
                            return Err(e);
                        },
                    }
                },
                None => {
                    proof {
                        assert(sel1 =~= Seq::<Item>::empty());
                        assert(sel1.filter(pred) =~= Seq::<Item>::empty()) by {
                            sel1.lemma_filter_len(pred);
                        }
                    }
                },
            }
        } else {
            proof {
                assert(sel1.filter(pred) =~= Seq::<Item>::empty()) by {
                    sel1.lemma_filter_len(pred);
                }
            }
        }
        let ghost mid = derefs(results@);
        proof {
            assert(mid == sel1.filter(pred));
        }
        if is_all || is_consumables {
            match &self.consumables {
                Some(consumables) => {
                    match collect_into(
                        consumables,
                        &filters,
                        &validators,
                        &mut results,
                        Ghost(self.meta),
                        Ghost(g),
                        Ghost(d),
                        Ghost(t),
                    ) {
                        Ok(()) => {},
                        Err(e) => {
                            proof {
                                lemma_first_failure_skip_clean(
                                    sel1.filter(pred),
                                    sel2.filter(pred),
                                    self.meta,
                                );
                            }
                            return Err(e);
                        },
                    }
                },
                None => {
                    proof {
                        assert(sel2 =~= Seq::<Item>::empty());
                        assert(sel2.filter(pred) =~= Seq::<Item>::empty()) by {
                            sel2.lemma_filter_len(pred);
                        }
                        assert(derefs(results@) =~= mid + sel2.filter(pred));
                    }
                },
            }
        } else {
            proof {
                assert(sel2.filter(pred) =~= Seq::<Item>::empty()) by {
                    sel2.lemma_filter_len(pred);
                }
                assert(derefs(results@) =~= mid + sel2.filter(pred));
            }
        }
        proof {
            assert(derefs(results@) == kept);
            lemma_first_failure_none(kept, self.meta);
        }
        Ok(results)
    }
}

/// Walks one record collection in storage order, keeping each record that
/// passes the filters once every validator accepts it; the first validator
/// failure aborts with that error.
fn collect_into<'a>(
    items: &'a Vec<Item>,
    filters: &FilterSet,
    validators: &Vec<Validator<'a>>,
    results: &mut Vec<&'a Item>,
    Ghost(meta): Ghost<Meta>,
    Ghost(g): Ghost<Option<Seq<Seq<char>>>>,
    Ghost(d): Ghost<Option<Seq<Seq<char>>>>,
    Ghost(t): Ghost<Option<Seq<Seq<char>>>>,
) -> (r: Result<(), Error>)
    requires
        forall|i: int| 0 <= i < validators@.len() ==> (#[trigger] validators@[i]).wf(),
        filters.g_view() == g,
        filters.d_view() == d,
        filters.t_view() == t,
        forall|item: Item| #[trigger] validators_failure(item, validators@) == item_failure(
            item,
            meta,
        ),
        forall|i: int|
            0 <= i < old(results)@.len() ==> item_failure(
                #[trigger] derefs(old(results)@)[i],
                meta,
            ) is None,
    ensures
        match r {
            Ok(()) => {
                &&& derefs(final(results)@) == derefs(old(results)@) + items@.filter(
                    passes(g, d, t),
                )
                &&& forall|i: int|
                    0 <= i < final(results)@.len() ==> item_failure(
                        #[trigger] derefs(final(results)@)[i],
                        meta,
                    ) is None
            },
            Err(e) => Some(e.message_chars()) == first_failure(
                items@.filter(passes(g, d, t)),
                meta,
            ),
        },
{
    let ghost pred = passes(g, d, t);
    let mut idx: usize = 0;
    while idx < items.len()
        invariant
            idx <= items@.len(),
            forall|i: int| 0 <= i < validators@.len() ==> (#[trigger] validators@[i]).wf(),
            filters.g_view() == g,
            filters.d_view() == d,
            filters.t_view() == t,
            forall|item: Item| #[trigger] validators_failure(item, validators@) == item_failure(
                item,
                meta,
            ),
            pred == passes(g, d, t),
            derefs(results@) == derefs(old(results)@) + items@.take(idx as int).filter(pred),
            forall|i: int|
                0 <= i < results@.len() ==> item_failure(
                    #[trigger] derefs(results@)[i],
                    meta,
                ) is None,
        decreases items@.len() - idx,
    {
        let item = &items[idx];
        let ghost pre = results@;
        if filters.passes_item(item) {
            match validate_with(validators, item) {
                Ok(()) => {
                    results.push(item);
                    proof {
                        lemma_filter_take_step(items@, pred, idx as int);
                        assert(derefs(results@) =~= derefs(pre).push(*item));
                        assert(derefs(results@) =~= derefs(old(results)@) + items@.take(
                            idx as int + 1,
                        ).filter(pred));
                    }
                },
                Err(e) => {
                    proof {
                        lemma_filter_take_step(items@, pred, idx as int);
                        let a = items@.take(idx as int).filter(pred);
                        let whole = items@.filter(pred);
                        assert(items@.take(items@.len() as int) =~= items@);
                        lemma_filter_suffix(items@, pred, idx as int);
                        // whole == a + [item] + rest
                        let rest = items@.skip(idx as int + 1).filter(pred);
                        assert(whole =~= a + (seq![items@[idx as int]] + rest));
                        assert(derefs(results@).len() == results@.len());
                        assert forall|i: int| 0 <= i < a.len() implies item_failure(
                            #[trigger] a[i],
                            meta,
                        ) is None by {
                            let k = derefs(old(results)@).len() + i;
                            assert(derefs(results@)[k] == a[i]);
                            assert(item_failure(derefs(results@)[k], meta) is None);
                        }
                        lemma_first_failure_skip_clean(a, seq![items@[idx as int]] + rest, meta);
                        assert((seq![items@[idx as int]] + rest)[0] == items@[idx as int]);
                        assert((seq![items@[idx as int]] + rest).len() > 0);
                    }
                    return Err(e);
                },
            }
        } else {
            proof {
                lemma_filter_take_step(items@, pred, idx as int);
            }
        }
        idx = idx + 1;
    }
    proof {
        assert(items@.take(items@.len() as int) =~= items@);
    }
    Ok(())
}

/// A collection splits, at any index of a record that passes the filter,
/// into the filtered prefix, that record, and the filtered remainder.
proof fn lemma_filter_suffix(s: Seq<Item>, pred: spec_fn(Item) -> bool, k: int)
    requires
        0 <= k < s.len(),
        pred(s[k]),
    ensures
        s.filter(pred) == s.take(k).filter(pred) + (seq![s[k]] + s.skip(k + 1).filter(pred)),
{
    assert(s =~= s.take(k) + (seq![s[k]] + s.skip(k + 1)));
    Seq::filter_distributes_over_add(s.take(k), seq![s[k]] + s.skip(k + 1), pred);
    Seq::filter_distributes_over_add(seq![s[k]], s.skip(k + 1), pred);
    lemma_filter_singleton(s[k], pred);
}

/// Runs every validator against the record, failing fast on the first
/// error.
fn validate_with(validators: &Vec<Validator<'_>>, item: &Item) -> (r: Result<(), Error>)
    requires
        forall|i: int| 0 <= i < validators@.len() ==> (#[trigger] validators@[i]).wf(),
    ensures
        match r {
            Ok(()) => validators_failure(*item, validators@) is None,
            Err(e) => Some(e.message_chars()) == validators_failure(*item, validators@),
        },
{
    let mut i: usize = 0;
    while i < validators.len()
        invariant
            i <= validators@.len(),
            forall|j: int| 0 <= j < validators@.len() ==> (#[trigger] validators@[j]).wf(),
            forall|j: int|
                0 <= j < i ==> (#[trigger] validators@[j]).spec_failure(*item) is None,
        decreases validators@.len() - i,
    {
        match validators[i].validate(item) {
            Ok(()) => {},
            Err(e) => {
                proof {
                    lemma_validators_failure_at(*item, validators@, i as int);
                }
                return Err(e);
            },
        }
        i = i + 1;
    }
    proof {
        lemma_validators_failure_clean(*item, validators@);
    }
    Ok(())
}

/// If every validator before `i` accepts the record and the one at `i`
/// rejects it, that rejection is the list's failure.
proof fn lemma_validators_failure_at(item: Item, validators: Seq<Validator>, i: int)
    requires
        0 <= i < validators.len(),
        forall|j: int| 0 <= j < i ==> (#[trigger] validators[j]).spec_failure(item) is None,
        validators[i].spec_failure(item) is Some,
    ensures
        validators_failure(item, validators) == validators[i].spec_failure(item),
    decreases i,
{
    if i > 0 {
        assert(validators.skip(1)[i - 1] == validators[i]);
        assert(forall|j: int|
            0 <= j < i - 1 ==> validators.skip(1)[j] == #[trigger] validators[j + 1]);
        lemma_validators_failure_at(item, validators.skip(1), i - 1);
    }
}

/// If every validator accepts the record, the list reports no failure.
proof fn lemma_validators_failure_clean(item: Item, validators: Seq<Validator>)
    requires
        forall|j: int|
            0 <= j < validators.len() ==> (#[trigger] validators[j]).spec_failure(item) is None,
    ensures
        validators_failure(item, validators) is None,
    decreases validators.len(),
{
    if validators.len() > 0 {
        assert(forall|j: int|
            0 <= j < validators.len() - 1 ==> validators.skip(1)[j] == #[trigger] validators[j
                + 1]);
        lemma_validators_failure_clean(item, validators.skip(1));
    }
}

} // verus!
