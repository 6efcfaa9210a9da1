//! Decimal numbers: printing (`to_string`) and parsing (`str::parse`)
//! of unsigned integers.

use vstd::prelude::*;
use crate::text::push_char;

verus! {

pub open spec fn is_digit(c: char) -> bool {
    '0' <= c && c <= '9'
}

pub open spec fn digit_value(c: char) -> nat {
    (c as int - '0' as int) as nat
}

pub open spec fn digit_char(d: nat) -> char {
    (d + '0' as int) as char
}

/// The decimal digits of `n`, most significant first, without leading zeros.
pub open spec fn decimal(n: nat) -> Seq<char>
    decreases n,
{
    if n < 10 {
        seq![digit_char(n)]
    } else {
        decimal(n / 10).push(digit_char(n % 10))
    }
}

/// Appends the decimal digits of `n` to `out`.
pub fn push_decimal(out: &mut String, n: usize)
    ensures
        final(out)@ == old(out)@ + decimal(n as nat),
    decreases n,
{
    if n >= 10 {
        push_decimal(out, n / 10);
    }
    let d = (n % 10) as u8;
    let c = (d + 48u8) as char;
    assert(c == digit_char((n % 10) as nat));
    push_char(out, c);
}

/// `n.to_string()`.
pub fn decimal_string(n: usize) -> (s: String)
    ensures
        s@ == decimal(n as nat),
{
    let mut s = String::new();
    push_decimal(&mut s, n);
    s
}

/// Value of a string of decimal digits.
pub open spec fn digits_value(s: Seq<char>) -> nat
    decreases s.len(),
{
    if s.len() == 0 {
        0
    } else {
        digits_value(s.drop_last()) * 10 + digit_value(s.last())
    }
}

pub open spec fn all_digits(s: Seq<char>) -> bool {
    forall|i: int| 0 <= i < s.len() ==> is_digit(#[trigger] s[i])
}

/// The digits that an unsigned integer parse reads: one leading `+` is
/// skipped when something follows it.
pub open spec fn unsigned_digits(s: Seq<char>) -> Seq<char> {
    if s.len() > 1 && s[0] == '+' {
        s.drop_first()
    } else {
        s
    }
}

/// The value that parsing `s` as an unsigned integer of at most `max` gives
/// (`str::parse::<u8>` for `max == 255`, `str::parse::<usize>` for
/// `max == usize::MAX`): `None` on an empty string, a character that is not
/// a digit, or a value above `max`.
pub open spec fn parse_unsigned(s: Seq<char>, max: nat) -> Option<nat> {
    let d = unsigned_digits(s);
    if d.len() > 0 && all_digits(d) && digits_value(d) <= max {
        Some(digits_value(d))
    } else {
        None
    }
}

proof fn lemma_digits_value_monotone(s: Seq<char>, i: int)
    requires
        0 <= i <= s.len(),
        all_digits(s),
    ensures
        digits_value(s.take(i)) <= digits_value(s),
    decreases s.len() - i,
{
    if i < s.len() {
        lemma_digits_value_monotone(s, i + 1);
        assert(s.take(i + 1).drop_last() =~= s.take(i));
    } else {
        assert(s.take(i) =~= s);
    }
}

/// Parses `v` as an unsigned integer (`str::parse::<usize>`).
pub fn parse_usize(v: &Vec<char>) -> (r: Option<usize>)
    ensures
        r matches Some(n) ==> parse_unsigned(v@, usize::MAX as nat) == Some(n as nat),
        r is None ==> parse_unsigned(v@, usize::MAX as nat) is None,
{
    let start: usize = if v.len() > 1 && v[0] == '+' { 1 } else { 0 };
    let ghost d = unsigned_digits(v@);
    assert(d =~= v@.skip(start as int));
    if start == v.len() {
        return None;
    }
    let mut acc: usize = 0;
    let mut i = start;
    while i < v.len()
        invariant
            start <= i <= v.len(),
            d == v@.skip(start as int),
            d == unsigned_digits(v@),
            acc as nat == digits_value(d.take(i - start)),
            forall|k: int| 0 <= k < i - start ==> is_digit(#[trigger] d[k]),
        decreases v.len() - i,
    {
        let c = v[i];
        assert(c == d[i - start]);
        if !('0' <= c && c <= '9') {
            assert(!is_digit(d[i - start]));
            return None;
        }
        let dig = (c as u32 - '0' as u32) as usize;
        assert(dig == digit_value(c));
        assert(d.take(i + 1 - start).drop_last() =~= d.take(i - start));
        assert(d.take(i + 1 - start).last() == c);
        assert(digits_value(d.take(i + 1 - start)) == acc * 10 + dig);
        match acc.checked_mul(10) {
            Some(m) => match m.checked_add(dig) {
                Some(n) => {
                    acc = n;
                },
                None => {
                    proof {
                        assert(all_digits(d.take(i + 1 - start)));
                        if all_digits(d) {
                            lemma_digits_value_monotone(d, i + 1 - start);
                        }
                    }
                    return None;
                },
            },
            None => {
                proof {
                    assert(all_digits(d.take(i + 1 - start)));
                    if all_digits(d) {
                        lemma_digits_value_monotone(d, i + 1 - start);
                    }
                }
                return None;
            },
        }
        i += 1;
    }
    assert(d.take(v.len() - start) =~= d);
    Some(acc)
}

/// Parses `v` as a `u8` (`str::parse::<u8>`).
pub fn parse_u8(v: &Vec<char>) -> (r: Option<u8>)
    ensures
        r matches Some(n) ==> parse_unsigned(v@, 255) == Some(n as nat),
        r is None ==> parse_unsigned(v@, 255) is None,
{
    match parse_usize(v) {
        Some(n) => if n <= 255 {
            Some(n as u8)
        } else {
            None
        },
        None => None,
    }
}

pub proof fn lemma_decimal_digits(n: nat)
    ensures
        decimal(n).len() > 0,
        all_digits(decimal(n)),
        digits_value(decimal(n)) == n,
    decreases n,
{
    if n < 10 {
        assert(digit_value(digit_char(n)) == n);
        assert(decimal(n).drop_last() =~= Seq::<char>::empty());
        assert(digits_value(Seq::<char>::empty()) == 0);
    } else {
        lemma_decimal_digits(n / 10);
        let d = decimal(n);
        assert(d.drop_last() =~= decimal(n / 10));
        assert(digit_value(digit_char(n % 10)) == n % 10);
        assert((n / 10) * 10 + n % 10 == n) by (nonlinear_arith);
        assert(d.last() == digit_char(n % 10));
        assert forall|i: int| 0 <= i < d.len() implies is_digit(#[trigger] d[i]) by {
            if i < d.len() - 1 {
                assert(d[i] == decimal(n / 10)[i]);
            }
        }
    }
}

/// Reading back a printed number gives the number: parsing the decimal
/// digits of any `n` up to the bound yields `n`.
pub proof fn lemma_parse_decimal(n: nat, max: nat)
    requires
        n <= max,
    ensures
        parse_unsigned(decimal(n), max) == Some(n),
{
    lemma_decimal_digits(n);
    assert(is_digit(decimal(n)[0]));
}

} // verus!
