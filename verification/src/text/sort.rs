//! Sorting string lists into ascending character order, and the shared
//! permutation lemma used by every insertion-based sort in the crate.

use vstd::prelude::*;
use vstd::relations::{sorted_by, total_ordering};
use vstd::seq_lib::{lemma_multiset_commutative, lemma_sorted_unique};
use crate::text::order::{
    chars_le, chars_lt, lemma_chars_le_duality, lemma_chars_lt_asymmetric,
    lemma_chars_lt_connected, lemma_chars_lt_transitive, str_le,
};

verus! {

/// The non-strict character order, as a relation value.
pub open spec fn chars_leq() -> spec_fn(Seq<char>, Seq<char>) -> bool {
    |a: Seq<char>, b: Seq<char>| chars_le(a, b)
}

/// The character order is a total order on character sequences.
pub proof fn lemma_chars_leq_total_ordering()
    ensures
        total_ordering(chars_leq()),
{
    let leq = chars_leq();
    assert forall|a: Seq<char>, b: Seq<char>| #[trigger] leq(a, b) || #[trigger] leq(b, a) by {
        lemma_chars_lt_connected(a, b);
    }
    assert forall|a: Seq<char>, b: Seq<char>| #[trigger] leq(a, b) && #[trigger] leq(b, a)
        implies a == b by {
        lemma_chars_lt_asymmetric(a, b);
    }
    assert forall|a: Seq<char>, b: Seq<char>, c: Seq<char>|
        #[trigger] leq(a, b) && #[trigger] leq(b, c) implies leq(a, c) by {
        if chars_lt(a, b) && chars_lt(b, c) {
            lemma_chars_lt_transitive(a, b, c);
        }
    }
}

/// Transitivity of the non-strict character order.
pub proof fn lemma_chars_le_transitive(a: Seq<char>, b: Seq<char>, c: Seq<char>)
    requires
        chars_le(a, b),
        chars_le(b, c),
    ensures
        chars_le(a, c),
{
    if chars_lt(a, b) && chars_lt(b, c) {
        lemma_chars_lt_transitive(a, b, c);
    }
}

/// A tag list in ascending character order: the canonical sorted form.
pub open spec fn sorted_tag_chars(vs: Seq<Seq<char>>) -> Seq<Seq<char>> {
    vs.sort_by(chars_leq())
}

/// Sorting a duplicate-free tag list keeps it duplicate-free: the sorted
/// view of a tag set still shows each tag exactly once.
pub proof fn lemma_sorted_tags_distinct(tags: Seq<Seq<char>>)
    requires
        tags.no_duplicates(),
    ensures
        sorted_tag_chars(tags).no_duplicates(),
{
    lemma_chars_leq_total_ordering();
    tags.lemma_sort_by_ensures(chars_leq());
    tags.lemma_multiset_has_no_duplicates();
    assert(sorted_tag_chars(tags).to_multiset() == tags.to_multiset());
    sorted_tag_chars(tags).lemma_multiset_has_no_duplicates_conv();
}

/// Taking the element at `i` out and putting it back in at an earlier
/// position `p` leaves the multiset of elements unchanged.
pub proof fn lemma_remove_insert_permutes<A>(s: Seq<A>, i: int, p: int)
    requires
        0 <= p <= i < s.len(),
    ensures
        s.remove(i).insert(p, s[i]).to_multiset() == s.to_multiset(),
{
    let len = s.len() as int;
    let a = s.subrange(0, p);
    let b = s.subrange(p, i);
    let x = seq![s[i]];
    let c = s.subrange(i + 1, len);
    let t = s.remove(i).insert(p, s[i]);
    assert(s =~= a + (b + (x + c)));
    assert(t =~= a + (x + (b + c)));
    lemma_multiset_commutative(b, x + c);
    lemma_multiset_commutative(x, c);
    lemma_multiset_commutative(a, b + (x + c));
    lemma_multiset_commutative(x, b + c);
    lemma_multiset_commutative(b, c);
    lemma_multiset_commutative(a, x + (b + c));
    assert(t.to_multiset() =~= s.to_multiset());
}

/// Sorts the tags in place into ascending character order.  The character
/// order is total, so the sorted form is canonical and the result is
/// exactly the sorted permutation of the input.
pub fn sort_strings(tags: &mut Vec<String>)
    ensures
        final(tags).deep_view() == sorted_tag_chars(old(tags).deep_view()),
        final(tags)@.len() == old(tags)@.len(),
{
    proof {
        lemma_chars_leq_total_ordering();
        old(tags).deep_view().lemma_sort_by_ensures(chars_leq());
    }
    let ghost orig = old(tags).deep_view();
    if tags.len() == 0 {
        proof {
            lemma_sorted_unique(tags.deep_view(), orig.sort_by(chars_leq()), chars_leq());
        }
        return ;
    }
    let mut i: usize = 1;
    while i < tags.len()
        invariant
            1 <= i <= tags@.len(),
            tags@.len() == old(tags)@.len(),
            tags.deep_view().to_multiset() == orig.to_multiset(),
            sorted_by(tags.deep_view().take(i as int), chars_leq()),
        decreases tags@.len() - i,
    {
        let ghost s = tags.deep_view();
        let mut p: usize = 0;
        loop
            invariant_except_break
                p <= i,
                i < tags@.len(),
                tags.deep_view() == s,
                forall|q: int| 0 <= q < p ==> chars_le(#[trigger] s[q], s[i as int]),
            ensures
                p <= i,
                i < tags@.len(),
                tags.deep_view() == s,
                forall|q: int| 0 <= q < p ==> chars_le(#[trigger] s[q], s[i as int]),
                p < i ==> !chars_le(s[p as int], s[i as int]),
            decreases i - p,
        {
            if p == i {
                break ;
            }
            let keep = str_le(tags[p].as_str(), tags[i].as_str());
            proof {
                assert(s[p as int] == tags@[p as int]@);
                assert(s[i as int] == tags@[i as int]@);
            }
            if !keep {
                break ;
            }
            p = p + 1;
        }
        let x = tags.remove(i);
        tags.insert(p, x);
        proof {
            let s2 = tags.deep_view();
            assert(s2 =~= s.remove(i as int).insert(p as int, s[i as int])) by {
                assert forall|j: int| 0 <= j < s2.len() implies s2[j] == s.remove(i as int).insert(
                    p as int,
                    s[i as int],
                )[j] by {
                    assert(s2[j] == tags@[j]@);
                }
            }
            lemma_remove_insert_permutes(s, i as int, p as int);
            let t = s.take(i as int).insert(p as int, s[i as int]);
            assert(s2.take(i as int + 1) =~= t);
            if p < i {
                lemma_chars_le_duality(s[i as int], s[p as int]);
                assert(chars_le(s[i as int], s[p as int]));
            }
            assert forall|j: int, k: int| 0 <= j < k < t.len() implies #[trigger] chars_leq()(
                t[j],
                t[k],
            ) by {
                if j < p && k == p {
                    assert(t[j] == s[j]);
                    assert(t[k] == s[i as int]);
                } else if j < p && k > p {
                    assert(t[j] == s.take(i as int)[j]);
                    assert(t[k] == s.take(i as int)[k - 1]);
                    assert(chars_leq()(s.take(i as int)[j], s.take(i as int)[k - 1]));
                } else if j == p && k > p {
                    assert(t[j] == s[i as int]);
                    assert(t[k] == s.take(i as int)[k - 1]);
                    if k - 1 > p {
                        assert(chars_leq()(s.take(i as int)[p as int], s.take(i as int)[k - 1]));
                        lemma_chars_le_transitive(
                            s[i as int],
                            s[p as int],
                            s.take(i as int)[k - 1],
                        );
                    }
                } else if j > p {
                    assert(t[j] == s.take(i as int)[j - 1]);
                    assert(t[k] == s.take(i as int)[k - 1]);
                    assert(chars_leq()(s.take(i as int)[j - 1], s.take(i as int)[k - 1]));
                }
            }
            assert(sorted_by(s2.take(i as int + 1), chars_leq()));
        }
        i = i + 1;
    }
    proof {
        assert(tags.deep_view().take(tags@.len() as int) =~= tags.deep_view());
        lemma_sorted_unique(tags.deep_view(), orig.sort_by(chars_leq()), chars_leq());
    }
}

} // verus!
