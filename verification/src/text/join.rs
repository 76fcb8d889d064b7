//! Joining tag lists with a separator, a specification of separator
//! splitting, and the law that splitting undoes joining.

use vstd::prelude::*;

verus! {

/// The characters of `parts` joined with `sep` between consecutive parts.
pub open spec fn join_with(parts: Seq<Seq<char>>, sep: Seq<char>) -> Seq<char>
    decreases parts.len(),
{
    if parts.len() == 0 {
        Seq::empty()
    } else if parts.len() == 1 {
        parts[0]
    } else {
        parts[0] + sep + join_with(parts.skip(1), sep)
    }
}

/// Joining one more part appends a separator and that part.
pub proof fn lemma_join_push(parts: Seq<Seq<char>>, sep: Seq<char>, x: Seq<char>)
    requires
        parts.len() >= 1,
    ensures
        join_with(parts.push(x), sep) == join_with(parts, sep) + sep + x,
    decreases parts.len(),
{
    let pushed = parts.push(x);
    if parts.len() == 1 {
        assert(pushed.skip(1) =~= seq![x]);
        assert(join_with(pushed.skip(1), sep) == x);
        assert(join_with(pushed, sep) == pushed[0] + sep + x);
        assert(pushed[0] == parts[0]);
    } else {
        assert(pushed.skip(1) =~= parts.skip(1).push(x));
        lemma_join_push(parts.skip(1), sep, x);
        assert(pushed[0] == parts[0]);
        assert(join_with(pushed, sep) == parts[0] + sep + (join_with(parts.skip(1), sep) + sep
            + x));
        assert(parts[0] + sep + (join_with(parts.skip(1), sep) + sep + x) =~= (parts[0] + sep
            + join_with(parts.skip(1), sep)) + sep + x);
    }
}

/// Joins the tags with the given separator, in their stored order.
pub fn join_tags(parts: &Vec<String>, sep: &str) -> (r: String)
    ensures
        r@ == join_with(parts.deep_view(), sep@),
{
    let mut result = String::new();
    if parts.len() == 0 {
        return result;
    }
    result.append(parts[0].as_str());
    proof {
        assert(parts.deep_view().take(1) =~= seq![parts.deep_view()[0]]);
        assert(parts.deep_view()[0] == parts@[0]@);
    }
    let mut i: usize = 1;
    while i < parts.len()
        invariant
            1 <= i <= parts@.len(),
            parts.deep_view().len() == parts@.len(),
            result@ == join_with(parts.deep_view().take(i as int), sep@),
        decreases parts@.len() - i,
    {
        result.append(sep);
        result.append(parts[i].as_str());
        proof {
            let dv = parts.deep_view();
            assert(dv[i as int] == parts@[i as int]@);
            assert(dv.take(i as int + 1) =~= dv.take(i as int).push(dv[i as int]));
            lemma_join_push(dv.take(i as int), sep@, dv[i as int]);
            assert(dv.take(i as int).len() == i as int);
            assert(result@ =~= join_with(dv.take(i as int + 1), sep@));
        }
        i = i + 1;
    }
    proof {
        assert(parts.deep_view().take(parts@.len() as int) =~= parts.deep_view());
    }
    result
}

/// Whether `sep` occurs in `s` beginning at position `p`.
pub open spec fn sep_at(s: Seq<char>, sep: Seq<char>, p: int) -> bool {
    0 <= p && p + sep.len() <= s.len() && s.subrange(p, p + sep.len()) == sep
}

/// The position of the leftmost occurrence of `sep` in `s`, if any.
pub open spec fn find_sep(s: Seq<char>, sep: Seq<char>) -> Option<int>
    decreases s.len(),
{
    if sep_at(s, sep, 0) {
        Some(0int)
    } else if s.len() == 0 {
        None
    } else {
        match find_sep(s.skip(1), sep) {
            Some(p) => Some(p + 1),
            None => None,
        }
    }
}

/// An occurrence in the tail is an occurrence one place further on.
proof fn lemma_sep_at_shift(s: Seq<char>, sep: Seq<char>, q: int)
    requires
        q >= 0,
        s.len() >= 1,
    ensures
        sep_at(s.skip(1), sep, q) == sep_at(s, sep, q + 1),
{
    if q + sep.len() <= s.len() - 1 {
        assert(s.skip(1).subrange(q, q + sep.len()) =~= s.subrange(q + 1, q + 1 + sep.len()));
    }
}

/// `find_sep` returns the position of an occurrence, and the leftmost one;
/// `None` means there is no occurrence at all.
pub proof fn lemma_find_sep_spec(s: Seq<char>, sep: Seq<char>)
    ensures
        match find_sep(s, sep) {
            Some(p) => sep_at(s, sep, p) && forall|q: int| 0 <= q < p ==> !sep_at(s, sep, q),
            None => forall|q: int| !sep_at(s, sep, q),
        },
    decreases s.len(),
{
    if sep_at(s, sep, 0) {
    } else if s.len() == 0 {
        assert forall|q: int| !sep_at(s, sep, q) by {
            if q > 0 {
                assert(q + sep.len() > s.len());
            }
        }
    } else {
        lemma_find_sep_spec(s.skip(1), sep);
        match find_sep(s.skip(1), sep) {
            Some(p) => {
                lemma_sep_at_shift(s, sep, p);
                assert forall|q: int| 0 <= q < p + 1 implies !sep_at(s, sep, q) by {
                    if q > 0 {
                        lemma_sep_at_shift(s, sep, q - 1);
                    }
                }
            },
            None => {
                assert forall|q: int| !sep_at(s, sep, q) by {
                    if q > 0 {
                        lemma_sep_at_shift(s, sep, q - 1);
                    }
                }
            },
        }
    }
}

#[via_fn]
proof fn split_by_decreases(s: Seq<char>, sep: Seq<char>) {
    lemma_find_sep_spec(s, sep);
}

/// `s` cut at each leftmost occurrence of `sep`, the way Rust's `split`
/// cuts a string: an input without any occurrence is one whole piece.
pub open spec fn split_by(s: Seq<char>, sep: Seq<char>) -> Seq<Seq<char>>
    decreases s.len(),
    when sep.len() >= 1
    via split_by_decreases
{
    match find_sep(s, sep) {
        None => seq![s],
        Some(p) => seq![s.subrange(0, p)] + split_by(s.skip(p + sep.len()), sep),
    }
}

/// A part is clean for `sep` when no occurrence of `sep` begins inside it,
/// not even one that runs over into a separator appended after it.
pub open spec fn clean_part(m: Seq<char>, sep: Seq<char>) -> bool {
    forall|p: int| 0 <= p < m.len() ==> !sep_at(m + sep, sep, p)
}

/// An occurrence inside a part alone is an occurrence in the part with a
/// separator appended.
proof fn lemma_sep_at_prefix(m: Seq<char>, sep: Seq<char>, q: int)
    requires
        sep_at(m, sep, q),
    ensures
        sep_at(m + sep, sep, q),
{
    assert((m + sep).subrange(q, q + sep.len()) =~= m.subrange(q, q + sep.len()));
}

/// Law: splitting at the separator undoes joining with it, for any
/// non-empty sequence of parts each of which is clean for the separator.
/// In particular a joined tag set splits back into exactly as many pieces
/// as the set has members.
pub proof fn lemma_split_join_roundtrip(parts: Seq<Seq<char>>, sep: Seq<char>)
    requires
        parts.len() >= 1,
        sep.len() >= 1,
        forall|i: int| 0 <= i < parts.len() ==> clean_part(#[trigger] parts[i], sep),
    ensures
        split_by(join_with(parts, sep), sep) == parts,
    decreases parts.len(),
{
    lemma_find_sep_spec(join_with(parts, sep), sep);
    if parts.len() == 1 {
        let m = parts[0];
        assert(join_with(parts, sep) == m);
        assert(clean_part(m, sep));
        match find_sep(m, sep) {
            None => {
                assert(split_by(m, sep) =~= parts);
            },
            Some(p) => {
                assert(sep_at(m, sep, p));
                assert(p < m.len());
                lemma_sep_at_prefix(m, sep, p);
                assert(false);
            },
        }
    } else {
        let m = parts[0];
        let rest = parts.skip(1);
        let j2 = join_with(rest, sep);
        let j = join_with(parts, sep);
        assert(j == m + sep + j2);
        assert(sep_at(j, sep, m.len() as int)) by {
            assert(j.subrange(m.len() as int, m.len() as int + sep.len() as int) =~= sep);
        }
        assert forall|q: int| 0 <= q < m.len() implies !sep_at(j, sep, q) by {
            if sep_at(j, sep, q) {
                assert((m + sep).subrange(q, q + sep.len()) =~= j.subrange(q, q + sep.len()));
                assert(sep_at(m + sep, sep, q));
                assert(clean_part(m, sep));
                assert(false);
            }
        }
        match find_sep(j, sep) {
            None => {
                assert(false);
            },
            Some(p) => {
                assert(p <= m.len());
                assert(p >= m.len());
                assert(j.subrange(0, p) =~= m);
                assert(j.skip(p + sep.len()) =~= j2);
                assert(forall|i: int| 0 <= i < rest.len() ==> rest[i] == parts[i + 1]);
                assert(forall|i: int|
                    0 <= i < rest.len() ==> clean_part(#[trigger] rest[i], sep));
                lemma_split_join_roundtrip(rest, sep);
                assert(split_by(j, sep) == seq![m] + rest);
                assert(seq![m] + rest =~= parts);
            },
        }
    }
}

} // verus!
