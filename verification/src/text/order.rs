//! Lexicographic ordering on character sequences and on sequences of tags,
//! with the order-theoretic lemmas the sorting routines rely on.

use vstd::prelude::*;

verus! {

/// Strict lexicographic order on character sequences: the shorter sequence
/// precedes any extension of itself, and otherwise the first differing
/// character (by code point) decides.
pub open spec fn chars_lt(a: Seq<char>, b: Seq<char>) -> bool
    decreases a.len(),
{
    if b.len() == 0 {
        false
    } else if a.len() == 0 {
        true
    } else if a[0] != b[0] {
        (a[0] as u32) < (b[0] as u32)
    } else {
        chars_lt(a.skip(1), b.skip(1))
    }
}

/// Non-strict lexicographic order on character sequences.
pub open spec fn chars_le(a: Seq<char>, b: Seq<char>) -> bool {
    chars_lt(a, b) || a == b
}

/// Two sequences that agree on their first characters compare the same way
/// as their remainders.
proof fn lemma_chars_lt_skip_agree(a: Seq<char>, b: Seq<char>, i: int)
    requires
        0 <= i <= a.len(),
        i <= b.len(),
        forall|j: int| 0 <= j < i ==> a[j] == b[j],
    ensures
        chars_lt(a, b) == chars_lt(a.skip(i), b.skip(i)),
    decreases i,
{
    if i > 0 {
        assert(a.len() > 0 && b.len() > 0);
        assert(a[0] == b[0]);
        lemma_chars_lt_skip_agree(a.skip(1), b.skip(1), i - 1);
        assert(a.skip(1).skip(i - 1) =~= a.skip(i));
        assert(b.skip(1).skip(i - 1) =~= b.skip(i));
    } else {
        assert(a.skip(0) =~= a);
        assert(b.skip(0) =~= b);
    }
}

/// The strict order is irreflexive and asymmetric.
pub proof fn lemma_chars_lt_asymmetric(a: Seq<char>, b: Seq<char>)
    ensures
        !(chars_lt(a, b) && chars_lt(b, a)),
        !chars_lt(a, a),
    decreases a.len(),
{
    if a.len() > 0 && b.len() > 0 && a[0] == b[0] {
        lemma_chars_lt_asymmetric(a.skip(1), b.skip(1));
    }
    if a.len() > 0 {
        lemma_chars_lt_asymmetric(a.skip(1), a.skip(1));
    }
}

/// Any two character sequences are comparable.
pub proof fn lemma_chars_lt_connected(a: Seq<char>, b: Seq<char>)
    ensures
        chars_lt(a, b) || chars_lt(b, a) || a == b,
    decreases a.len(),
{
    if a.len() == 0 && b.len() == 0 {
        assert(a =~= b);
    } else if a.len() == 0 {
        assert(chars_lt(a, b));
    } else if b.len() == 0 {
        assert(chars_lt(b, a));
    } else if a[0] != b[0] {
        vstd::utf8::char_u32_cast(a[0], a[0] as u32);
        vstd::utf8::char_u32_cast(b[0], b[0] as u32);
        assert((a[0] as u32) != (b[0] as u32));
        assert(chars_lt(a, b) || chars_lt(b, a));
    } else if a.len() > 0 && b.len() > 0 && a[0] == b[0] {
        lemma_chars_lt_connected(a.skip(1), b.skip(1));
        if a.skip(1) == b.skip(1) {
            assert(a.skip(1).len() == a.len() - 1);
            assert(b.skip(1).len() == b.len() - 1);
            assert(a.len() == b.len());
            assert forall|j: int| 0 <= j < a.len() implies a[j] == b[j] by {
                if j >= 1 {
                    assert(a.skip(1)[j - 1] == a[j]);
                    assert(b.skip(1)[j - 1] == b[j]);
                }
            }
            assert(a =~= b);
        }
    }
}

/// The strict order is transitive.
pub proof fn lemma_chars_lt_transitive(a: Seq<char>, b: Seq<char>, c: Seq<char>)
    requires
        chars_lt(a, b),
        chars_lt(b, c),
    ensures
        chars_lt(a, c),
    decreases a.len(),
{
    if a.len() > 0 && c.len() > 0 {
        if b.len() == 0 {
            assert(false);
        } else {
            if a[0] == b[0] && b[0] == c[0] {
                lemma_chars_lt_transitive(a.skip(1), b.skip(1), c.skip(1));
            }
        }
    }
}

/// `chars_le` and `chars_lt` are mutually dual.
pub proof fn lemma_chars_le_duality(a: Seq<char>, b: Seq<char>)
    ensures
        chars_le(a, b) == !chars_lt(b, a),
{
    lemma_chars_lt_asymmetric(a, b);
    lemma_chars_lt_connected(a, b);
}

/// Compares two string slices in the lexicographic character order.
pub fn str_lt(a: &str, b: &str) -> (r: bool)
    ensures
        r == chars_lt(a@, b@),
{
    let a_len = a.unicode_len();
    let b_len = b.unicode_len();
    let mut i: usize = 0;
    loop
        invariant
            i <= a_len,
            i <= b_len,
            a_len == a@.len(),
            b_len == b@.len(),
            forall|j: int| 0 <= j < i ==> a@[j] == b@[j],
        decreases a_len - i,
    {
        proof {
            lemma_chars_lt_skip_agree(a@, b@, i as int);
        }
        if i == b_len {
            return false;
        }
        if i == a_len {
            return true;
        }
        let ca = a.get_char(i);
        let cb = b.get_char(i);
        if ca as u32 != cb as u32 {
            proof {
                assert(a@.skip(i as int)[0] == a@[i as int]);
                assert(b@.skip(i as int)[0] == b@[i as int]);
            }
            return (ca as u32) < (cb as u32);
        }
        i = i + 1;
    }
}

/// Compares two string slices in the non-strict lexicographic order.
pub fn str_le(a: &str, b: &str) -> (r: bool)
    ensures
        r == chars_le(a@, b@),
{
    proof {
        lemma_chars_le_duality(a@, b@);
    }
    !str_lt(b, a)
}

/// Strict lexicographic order on sequences of tags: tags are compared
/// element by element in the character order, and a prefix precedes any
/// extension of itself.
pub open spec fn tags_lt(a: Seq<Seq<char>>, b: Seq<Seq<char>>) -> bool
    decreases a.len(),
{
    if b.len() == 0 {
        false
    } else if a.len() == 0 {
        true
    } else if a[0] != b[0] {
        chars_lt(a[0], b[0])
    } else {
        tags_lt(a.skip(1), b.skip(1))
    }
}

/// Non-strict lexicographic order on sequences of tags.
pub open spec fn tags_le(a: Seq<Seq<char>>, b: Seq<Seq<char>>) -> bool {
    tags_lt(a, b) || a == b
}

/// Two tag sequences that agree on their first elements compare the same
/// way as their remainders.
proof fn lemma_tags_lt_skip_agree(a: Seq<Seq<char>>, b: Seq<Seq<char>>, i: int)
    requires
        0 <= i <= a.len(),
        i <= b.len(),
        forall|j: int| 0 <= j < i ==> a[j] == b[j],
    ensures
        tags_lt(a, b) == tags_lt(a.skip(i), b.skip(i)),
    decreases i,
{
    if i > 0 {
        lemma_tags_lt_skip_agree(a.skip(1), b.skip(1), i - 1);
        assert(a.skip(1).skip(i - 1) =~= a.skip(i));
        assert(b.skip(1).skip(i - 1) =~= b.skip(i));
    } else {
        assert(a.skip(0) =~= a);
        assert(b.skip(0) =~= b);
    }
}

/// The strict tag order is irreflexive and asymmetric.
pub proof fn lemma_tags_lt_asymmetric(a: Seq<Seq<char>>, b: Seq<Seq<char>>)
    ensures
        !(tags_lt(a, b) && tags_lt(b, a)),
        !tags_lt(a, a),
    decreases a.len(),
{
    if a.len() > 0 && b.len() > 0 {
        if a[0] == b[0] {
            lemma_tags_lt_asymmetric(a.skip(1), b.skip(1));
        } else {
            lemma_chars_lt_asymmetric(a[0], b[0]);
        }
    }
    if a.len() > 0 {
        lemma_tags_lt_asymmetric(a.skip(1), a.skip(1));
    }
}

/// Any two tag sequences are comparable.
pub proof fn lemma_tags_lt_connected(a: Seq<Seq<char>>, b: Seq<Seq<char>>)
    ensures
        tags_lt(a, b) || tags_lt(b, a) || a == b,
    decreases a.len(),
{
    if a.len() == 0 && b.len() == 0 {
        assert(a =~= b);
    } else if a.len() > 0 && b.len() > 0 {
        if a[0] != b[0] {
            lemma_chars_lt_connected(a[0], b[0]);
        } else {
            lemma_tags_lt_connected(a.skip(1), b.skip(1));
            if a.skip(1) == b.skip(1) {
                assert(a.skip(1).len() == a.len() - 1);
                assert(b.skip(1).len() == b.len() - 1);
                assert forall|j: int| 0 <= j < a.len() implies a[j] == b[j] by {
                    if j >= 1 {
                        assert(a.skip(1)[j - 1] == a[j]);
                        assert(b.skip(1)[j - 1] == b[j]);
                    }
                }
                assert(a =~= b);
            }
        }
    }
}

/// The strict tag order is transitive.
pub proof fn lemma_tags_lt_transitive(a: Seq<Seq<char>>, b: Seq<Seq<char>>, c: Seq<Seq<char>>)
    requires
        tags_lt(a, b),
        tags_lt(b, c),
    ensures
        tags_lt(a, c),
    decreases a.len(),
{
    if a.len() > 0 && c.len() > 0 {
        assert(b.len() > 0);
        if a[0] == b[0] && b[0] == c[0] {
            lemma_tags_lt_transitive(a.skip(1), b.skip(1), c.skip(1));
        } else if a[0] == b[0] {
            assert(chars_lt(b[0], c[0]));
        } else if b[0] == c[0] {
            assert(chars_lt(a[0], b[0]));
        } else {
            lemma_chars_lt_transitive(a[0], b[0], c[0]);
            lemma_chars_lt_asymmetric(a[0], c[0]);
            if a[0] == c[0] {
                lemma_chars_lt_asymmetric(a[0], b[0]);
                assert(false);
            }
        }
    }
}

/// `tags_le` and `tags_lt` are mutually dual.
pub proof fn lemma_tags_le_duality(a: Seq<Seq<char>>, b: Seq<Seq<char>>)
    ensures
        tags_le(a, b) == !tags_lt(b, a),
{
    lemma_tags_lt_asymmetric(a, b);
    lemma_tags_lt_connected(a, b);
}

/// Compares two tag lists in the strict lexicographic tag order.
pub fn tag_list_lt(a: &Vec<String>, b: &Vec<String>) -> (r: bool)
    ensures
        r == tags_lt(a.deep_view(), b.deep_view()),
{
    let mut i: usize = 0;
    loop
        invariant
            i <= a.len(),
            i <= b.len(),
            a.deep_view().len() == a@.len(),
            b.deep_view().len() == b@.len(),
            forall|j: int| 0 <= j < i ==> a.deep_view()[j] == b.deep_view()[j],
        decreases a@.len() - i,
    {
        proof {
            lemma_tags_lt_skip_agree(a.deep_view(), b.deep_view(), i as int);
        }
        if i == b.len() {
            return false;
        }
        if i == a.len() {
            return true;
        }
        proof {
            assert(a.deep_view().skip(i as int)[0] == a.deep_view()[i as int]);
            assert(b.deep_view().skip(i as int)[0] == b.deep_view()[i as int]);
            assert(a.deep_view()[i as int] == a@[i as int]@);
            assert(b.deep_view()[i as int] == b@[i as int]@);
        }
        if !str_eq(a[i].as_str(), b[i].as_str()) {
            return str_lt(a[i].as_str(), b[i].as_str());
        }
        i = i + 1;
    }
}

/// Reports whether two string slices hold the same characters.
pub fn str_eq(a: &str, b: &str) -> (r: bool)
    ensures
        r == (a@ == b@),
{
    let a_len = a.unicode_len();
    let b_len = b.unicode_len();
    if a_len != b_len {
        proof {
            assert(a@.len() != b@.len());
        }
        return false;
    }
    let mut i: usize = 0;
    while i < a_len
        invariant
            i <= a_len,
            a_len == a@.len(),
            a_len == b@.len(),
            forall|j: int| 0 <= j < i ==> a@[j] == b@[j],
        decreases a_len - i,
    {
        let ca = a.get_char(i);
        let cb = b.get_char(i);
        if ca as u32 != cb as u32 {
            assert(a@[i as int] != b@[i as int]);
            return false;
        }
        i = i + 1;
    }
    proof {
        assert(a@ =~= b@);
    }
    true
}

} // verus!
