//! Decimal rendering of integers: the unit formatter and the column
//! aggregate print numeric values through these routines.

use vstd::prelude::*;

verus! {

/// The decimal digit character for a value below ten.
pub open spec fn digit_char(d: nat) -> char {
    if d == 0 {
        '0'
    } else if d == 1 {
        '1'
    } else if d == 2 {
        '2'
    } else if d == 3 {
        '3'
    } else if d == 4 {
        '4'
    } else if d == 5 {
        '5'
    } else if d == 6 {
        '6'
    } else if d == 7 {
        '7'
    } else if d == 8 {
        '8'
    } else {
        '9'
    }
}

/// The decimal digit characters of a non-negative value, most significant
/// digit first and without leading zeroes (zero itself is a single digit).
pub open spec fn dec_digits(n: nat) -> Seq<char>
    decreases n,
{
    if n < 10 {
        seq![digit_char(n)]
    } else {
        dec_digits(n / 10) + seq![digit_char(n % 10)]
    }
}

/// The decimal rendering of an integer, with a leading minus sign when
/// the value is negative.
pub open spec fn dec_chars(v: int) -> Seq<char> {
    if v < 0 {
        seq!['-'] + dec_digits((-v) as nat)
    } else {
        dec_digits(v as nat)
    }
}

/// The digit characters of a run of extracted low-order digits, read back
/// from the last extracted (most significant) to the first.
spec fn extracted_chars(ds: Seq<u8>) -> Seq<char>
    decreases ds.len(),
{
    if ds.len() == 0 {
        Seq::empty()
    } else {
        extracted_chars(ds.skip(1)) + seq![digit_char(ds[0] as nat)]
    }
}

proof fn lemma_extracted_push(ds: Seq<u8>, d: u8)
    ensures
        extracted_chars(ds.push(d)) == seq![digit_char(d as nat)] + extracted_chars(ds),
    decreases ds.len(),
{
    if ds.len() == 0 {
        assert(ds.push(d).skip(1) =~= Seq::<u8>::empty());
        assert(ds.push(d)[0] == d);
        assert(extracted_chars(ds.push(d)) == extracted_chars(Seq::<u8>::empty()) + seq![
            digit_char(d as nat),
        ]);
        assert(extracted_chars(ds.push(d)) =~= seq![digit_char(d as nat)] + extracted_chars(ds));
    } else {
        assert(ds.push(d).skip(1) =~= ds.skip(1).push(d));
        lemma_extracted_push(ds.skip(1), d);
        assert(ds.push(d)[0] == ds[0]);
        assert(extracted_chars(ds.push(d)) == (seq![digit_char(d as nat)] + extracted_chars(
            ds.skip(1),
        )) + seq![digit_char(ds[0] as nat)]);
        assert((seq![digit_char(d as nat)] + extracted_chars(ds.skip(1))) + seq![
            digit_char(ds[0] as nat),
        ] =~= seq![digit_char(d as nat)] + extracted_chars(ds));
    }
}

/// Appends the single digit character for a value below ten.
fn append_digit(buffer: &mut String, d: u8)
    requires
        d < 10,
    ensures
        final(buffer)@ == old(buffer)@ + seq![digit_char(d as nat)],
{
    proof {
        reveal_strlit("0");
        reveal_strlit("1");
        reveal_strlit("2");
        reveal_strlit("3");
        reveal_strlit("4");
        reveal_strlit("5");
        reveal_strlit("6");
        reveal_strlit("7");
        reveal_strlit("8");
        reveal_strlit("9");
    }
    if d == 0 {
        buffer.append("0");
        assert(buffer@ =~= old(buffer)@ + seq![digit_char(d as nat)]);
    } else if d == 1 {
        buffer.append("1");
        assert(buffer@ =~= old(buffer)@ + seq![digit_char(d as nat)]);
    } else if d == 2 {
        buffer.append("2");
        assert(buffer@ =~= old(buffer)@ + seq![digit_char(d as nat)]);
    } else if d == 3 {
        buffer.append("3");
        assert(buffer@ =~= old(buffer)@ + seq![digit_char(d as nat)]);
    } else if d == 4 {
        buffer.append("4");
        assert(buffer@ =~= old(buffer)@ + seq![digit_char(d as nat)]);
    } else if d == 5 {
        buffer.append("5");
        assert(buffer@ =~= old(buffer)@ + seq![digit_char(d as nat)]);
    } else if d == 6 {
        buffer.append("6");
        assert(buffer@ =~= old(buffer)@ + seq![digit_char(d as nat)]);
    } else if d == 7 {
        buffer.append("7");
        assert(buffer@ =~= old(buffer)@ + seq![digit_char(d as nat)]);
    } else if d == 8 {
        buffer.append("8");
        assert(buffer@ =~= old(buffer)@ + seq![digit_char(d as nat)]);
    } else {
        buffer.append("9");
        assert(buffer@ =~= old(buffer)@ + seq![digit_char(d as nat)]);
    }
}

/// Appends the decimal rendering of a non-negative value.
fn append_dec_u128(buffer: &mut String, n: u128)
    ensures
        final(buffer)@ == old(buffer)@ + dec_digits(n as nat),
{
    let mut digits: Vec<u8> = Vec::new();
    let mut m: u128 = n;
    loop
        invariant_except_break
            forall|j: int| 0 <= j < digits@.len() ==> digits@[j] < 10,
            digits@.len() == 0 ==> m == n,
            digits@.len() > 0 ==> m > 0,
            digits@.len() > 0 ==> dec_digits(n as nat) == dec_digits(m as nat) + extracted_chars(
                digits@,
            ),
        ensures
            digits@.len() > 0,
            forall|j: int| 0 <= j < digits@.len() ==> digits@[j] < 10,
            dec_digits(n as nat) == extracted_chars(digits@),
        decreases m,
    {
        let ghost old_digits = digits@;
        let ghost old_m = m as nat;
        let d: u8 = (m % 10) as u8;
        digits.push(d);
        m = m / 10;
        proof {
            lemma_extracted_push(old_digits, d);
            if old_digits.len() == 0 {
                assert(extracted_chars(old_digits) =~= Seq::<char>::empty());
                if m > 0 {
                    assert(dec_digits(old_m) == dec_digits(old_m / 10) + seq![
                        digit_char(old_m % 10),
                    ]);
                    assert(seq![digit_char(d as nat)] + extracted_chars(old_digits) =~= seq![
                        digit_char(old_m % 10),
                    ]);
                } else {
                    assert(dec_digits(old_m) == seq![digit_char(old_m)]);
                    assert(extracted_chars(digits@) =~= seq![digit_char(old_m)]);
                }
            } else {
                if m > 0 {
                    assert(dec_digits(old_m) == dec_digits(old_m / 10) + seq![
                        digit_char(old_m % 10),
                    ]);
                    assert(dec_digits(old_m / 10) + (seq![digit_char(d as nat)] + extracted_chars(
                        old_digits,
                    )) =~= (dec_digits(old_m / 10) + seq![digit_char(old_m % 10)])
                        + extracted_chars(old_digits));
                } else {
                    assert(old_m < 10);
                    assert(dec_digits(old_m) == seq![digit_char(old_m)]);
                    assert(seq![digit_char(d as nat)] + extracted_chars(old_digits) =~= seq![
                        digit_char(old_m),
                    ] + extracted_chars(old_digits));
                }
            }
        }
        if m == 0 {
            break ;
        }
    }
    let mut k: usize = digits.len();
    while k > 0
        invariant
            k <= digits@.len(),
            forall|j: int| 0 <= j < digits@.len() ==> digits@[j] < 10,
            buffer@ == old(buffer)@ + extracted_chars(digits@.skip(k as int)),
            dec_digits(n as nat) == extracted_chars(digits@),
        decreases k,
    {
        proof {
            assert(digits@.skip(k as int - 1)[0] == digits@[k as int - 1]);
            assert(digits@.skip(k as int - 1).skip(1) =~= digits@.skip(k as int));
        }
        append_digit(buffer, digits[k - 1]);
        k = k - 1;
        proof {
            assert(extracted_chars(digits@.skip(k as int)) == extracted_chars(
                digits@.skip(k as int + 1),
            ) + seq![digit_char(digits@[k as int] as nat)]);
            assert(buffer@ =~= old(buffer)@ + extracted_chars(digits@.skip(k as int)));
        }
    }
    proof {
        assert(digits@.skip(0) =~= digits@);
    }
}

/// Appends the decimal rendering of a signed value, minus sign included.
pub fn append_dec_i128(buffer: &mut String, v: i128)
    ensures
        final(buffer)@ == old(buffer)@ + dec_chars(v as int),
{
    if v < 0 {
        buffer.append("-");
        proof {
            reveal_strlit("-");
            assert("-"@ =~= seq!['-']);
        }
        let ghost mid = buffer@;
        let mag: u128 = ((-(v + 1)) as u128) + 1;
        proof {
            assert(mag as nat == (-(v as int)) as nat);
        }
        append_dec_u128(buffer, mag);
        proof {
            assert(buffer@ =~= old(buffer)@ + dec_chars(v as int));
        }
    } else {
        let mag: u128 = v as u128;
        append_dec_u128(buffer, mag);
    }
}

} // verus!
