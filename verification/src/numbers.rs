//! Decimal numbers written as text: their values, `u32`/`u64` parsing
//! as `str::parse` does it, and decimal formatting of integers.
use vstd::prelude::*;
use crate::text::{all_ascii_digits, ascii_digit, is_ascii_digit, slice_range};

verus! {

pub open spec fn digit_value(c: char) -> nat {
    ((c as u32) - ('0' as u32)) as nat
}

/// The value of a string of decimal digits.
pub open spec fn digits_value(d: Seq<char>) -> nat
    decreases d.len(),
{
    if d.len() == 0 {
        0
    } else {
        digits_value(d.drop_last()) * 10 + digit_value(d.last())
    }
}

/// `str::parse::<u64>` (or `u32`, with `max` the type's maximum): an
/// optional `+`, then one or more ASCII digits whose value is at most `max`.
pub open spec fn parse_unsigned(s: Seq<char>, max: nat) -> Option<nat> {
    let d = if s.len() > 0 && s[0] == '+' {
        s.skip(1)
    } else {
        s
    };
    if d.len() == 0 || !all_ascii_digits(d) {
        None
    } else if digits_value(d) > max {
        None
    } else {
        Some(digits_value(d))
    }
}

pub proof fn lemma_digits_value_push(d: Seq<char>, c: char)
    ensures
        digits_value(d.push(c)) == digits_value(d) * 10 + digit_value(c),
{
    assert(d.push(c).drop_last() =~= d);
}

/// A longer digit string has at least the value of its prefix.
pub proof fn lemma_digits_value_prefix(d: Seq<char>, k: int)
    requires
        0 <= k <= d.len(),
    ensures
        digits_value(d.take(k)) <= digits_value(d),
    decreases d.len() - k,
{
    if k < d.len() {
        lemma_digits_value_prefix(d, k + 1);
        assert(d.take(k + 1).drop_last() =~= d.take(k));
    } else {
        assert(d.take(k) =~= d);
    }
}

/// Parses a non-empty run of ASCII digits into a value at most `max`.
pub fn parse_digits(d: &[char], max: u64) -> (r: Option<u64>)
    requires
        all_ascii_digits(d@),
    ensures
        r matches Some(v) ==> digits_value(d@) <= max && v == digits_value(d@),
        r is None ==> digits_value(d@) > max,
{
    let mut acc: u64 = 0;
    let mut k: usize = 0;
    assert(d@.take(0) =~= Seq::<char>::empty());
    while k < d.len()
        invariant
            all_ascii_digits(d@),
            k <= d.len(),
            acc == digits_value(d@.take(k as int)),
            acc <= max,
        decreases d.len() - k,
    {
        let dv = ((d[k] as u32) - ('0' as u32)) as u64;
        assert(is_ascii_digit(d@[k as int]));
        assert(d@.take(k + 1) =~= d@.take(k as int).push(d@[k as int]));
        proof {
            lemma_digits_value_push(d@.take(k as int), d@[k as int]);
        }
        if dv > max {
            proof {
                lemma_digits_value_prefix(d@, k + 1);
            }
            return None;
        }
        if acc > (max - dv) / 10 {
            proof {
                assert(acc * 10 + dv > max) by (nonlinear_arith)
                    requires
                        acc > (max - dv) / 10,
                        dv <= max,
                ;
                lemma_digits_value_prefix(d@, k + 1);
            }
            return None;
        }
        assert(acc * 10 + dv <= max) by (nonlinear_arith)
            requires
                acc <= (max - dv) / 10,
                dv <= max,
        ;
        acc = acc * 10 + dv;
        k += 1;
    }
    assert(d@.take(d.len() as int) =~= d@);
    Some(acc)
}

/// `str::parse::<u32>`.
pub fn parse_u32(s: &[char]) -> (r: Option<u32>)
    ensures
        r matches Some(v) ==> parse_unsigned(s@, u32::MAX as nat) == Some(v as nat),
        r is None ==> parse_unsigned(s@, u32::MAX as nat) is None,
{
    let d = if s.len() > 0 && s[0] == '+' {
        slice_range(s, 1, s.len())
    } else {
        slice_range(s, 0, s.len())
    };
    assert(s.len() > 0 && s@[0] == '+' ==> d@ =~= s@.skip(1));
    assert(!(s.len() > 0 && s@[0] == '+') ==> d@ =~= s@);
    let ghost sd = if s@.len() > 0 && s@[0] == '+' {
        s@.skip(1)
    } else {
        s@
    };
    assert(sd == d@);
    if d.len() == 0 {
        return None;
    }
    let mut k: usize = 0;
    while k < d.len()
        invariant
            k <= d.len(),
            sd == d@,
            sd == (if s@.len() > 0 && s@[0] == '+' {
                s@.skip(1)
            } else {
                s@
            }),
            forall|m: int| 0 <= m < k ==> is_ascii_digit(#[trigger] d@[m]),
        decreases d.len() - k,
    {
        if !ascii_digit(d[k]) {
            assert(!is_ascii_digit(d@[k as int]));
            assert(!all_ascii_digits(d@));
            return None;
        }
        k += 1;
    }
    match parse_digits(&d, u32::MAX as u64) {
        Some(v) => Some(v as u32),
        None => None,
    }
}

/// The decimal digit character for `d < 10`.
pub open spec fn digit_char(d: nat) -> char {
    ((d + 48) as u32) as char
}

pub open spec fn decimal_spec(n: nat) -> Seq<char>
    decreases n,
{
    if n < 10 {
        seq![digit_char(n)]
    } else {
        decimal_spec(n / 10).push(digit_char(n % 10))
    }
}

/// The decimal digits of `n`, most significant first.
pub fn decimal_digits(n: u64) -> (r: Vec<char>)
    ensures
        r@ == decimal_spec(n as nat),
    decreases n,
{
    let d = (n % 10) as u8;
    let c = (d + 48) as char;
    assert(c == digit_char((n % 10) as nat));
    if n < 10 {
        vec![c]
    } else {
        let mut r = decimal_digits(n / 10);
        r.push(c);
        r
    }
}

proof fn lemma_decimal_digits_value(n: nat)
    ensures
        decimal_spec(n).len() > 0,
        all_ascii_digits(decimal_spec(n)),
        digits_value(decimal_spec(n)) == n,
    decreases n,
{
    let c = digit_char(n % 10);
    assert((((n % 10) + 48) as u32) as char as u32 == ((n % 10) + 48) as u32);
    assert(is_ascii_digit(c));
    assert(digit_value(c) == n % 10);
    if n < 10 {
        assert(seq![c].drop_last() =~= Seq::<char>::empty());
        assert(decimal_spec(n) == seq![c]);
        assert(n % 10 == n);
        assert(digits_value(seq![c]) == digits_value(seq![c].drop_last()) * 10 + digit_value(c));
    } else {
        assert((n / 10) * 10 + n % 10 == n) by (nonlinear_arith);
        lemma_decimal_digits_value(n / 10);
        let d = decimal_spec(n / 10);
        lemma_digits_value_push(d, c);
        assert forall|i: int| 0 <= i < d.push(c).len() implies is_ascii_digit(#[trigger] d.push(c)[i]) by {
            if i < d.len() {
                assert(d.push(c)[i] == d[i]);
            }
        }
    }
}

/// Reading back a number written in decimal gives the number: for every
/// `n` up to `max`, parsing `decimal_spec(n)` (as `str::parse` does) yields
/// `n`, and a number beyond `max` is refused.
pub proof fn law_decimal_round_trip(n: nat, max: nat)
    ensures
        n <= max ==> parse_unsigned(decimal_spec(n), max) == Some(n),
        n > max ==> parse_unsigned(decimal_spec(n), max) is None,
{
    lemma_decimal_digits_value(n);
    let d = decimal_spec(n);
    assert(is_ascii_digit(d[0]));
}

} // verus!
