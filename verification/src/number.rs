//! Decimal numerals: writing them and reading them.

use crate::text::chars_of;
use vstd::prelude::*;

verus! {

/// The digit that stands for `d`, which is below ten.
pub open spec fn digit(d: nat) -> char {
    (48 + d) as char
}

/// The decimal numeral of `n`, without leading zeros.
pub open spec fn decimal(n: nat) -> Seq<char>
    decreases n,
{
    if n < 10 {
        seq![digit(n)]
    } else {
        decimal(n / 10).push(digit(n % 10))
    }
}

/// Writes `n` in decimal.
pub fn to_decimal(n: u128) -> (r: String)
    ensures
        r@ == decimal(n as nat),
    decreases n,
{
    if n < 10 {
        let mut r = String::new();
        r.push((48 + n as u8) as char);
        assert(r@ =~= seq![digit(n as nat)]);
        r
    } else {
        let mut r = to_decimal(n / 10);
        r.push((48 + (n % 10) as u8) as char);
        r
    }
}

/// Whether `c` is a decimal digit.
pub open spec fn is_digit(c: char) -> bool {
    '0' <= c && c <= '9'
}

/// Whether `s` is a non-empty string of decimal digits.
pub open spec fn is_numeral(s: Seq<char>) -> bool {
    s.len() > 0 && forall|i: int| 0 <= i < s.len() ==> is_digit(#[trigger] s[i])
}

/// The number that a string of decimal digits stands for.
pub open spec fn numeral_value(s: Seq<char>) -> nat
    decreases s.len(),
{
    if s.len() == 0 {
        0
    } else {
        numeral_value(s.drop_last()) * 10 + (s.last() as nat - 48) as nat
    }
}

/// `s` without the plus sign that may stand before a numeral.
pub open spec fn without_sign(s: Seq<char>) -> Seq<char> {
    if s.len() > 0 && s[0] == '+' {
        s.drop_first()
    } else {
        s
    }
}

/// The number that `s` stands for: decimal digits, with or without a plus sign before them, whose
/// value fits in a `usize`.
pub open spec fn parsed(s: Seq<char>) -> Option<nat> {
    let digits = without_sign(s);
    if is_numeral(digits) && numeral_value(digits) <= usize::MAX {
        Some(numeral_value(digits))
    } else {
        None
    }
}

proof fn lemma_value_of_prefix(s: Seq<char>, n: int)
    requires
        0 <= n <= s.len(),
    ensures
        numeral_value(s.take(n)) <= numeral_value(s),
    decreases s.len() - n,
{
    if n < s.len() {
        lemma_value_of_prefix(s, n + 1);
        assert(s.take(n + 1).drop_last() =~= s.take(n));
    } else {
        assert(s.take(n) =~= s);
    }
}

/// Reads a decimal number.
pub fn parse_usize(s: &str) -> (r: Option<usize>)
    ensures
        r is Some <==> parsed(s@) is Some,
        r is Some ==> parsed(s@) == Some(r->0 as nat),
{
    let chars = chars_of(s);
    let n: usize = chars.len();
    let from: usize = if n > 0 && chars[0] == '+' {
        1
    } else {
        0
    };
    let ghost digits = without_sign(s@);
    assert(digits =~= s@.skip(from as int));
    if from == n {
        return None;
    }
    let mut value: usize = 0;
    let mut i: usize = from;
    assert(digits.take(0) =~= Seq::<char>::empty());
    while i < n
        invariant
            from <= i <= n == chars@.len(),
            chars@ == s@,
            digits == without_sign(s@),
            digits == s@.skip(from as int),
            forall|j: int| 0 <= j < i - from ==> is_digit(#[trigger] digits[j]),
            value == numeral_value(digits.take(i - from)),
        decreases n - i,
    {
        let c = chars[i];
        assert(c == digits[i - from]);
        if !('0' <= c && c <= '9') {
            return None;
        }
        let d: usize = c as usize - 48;
        assert(digits.take(i + 1 - from).drop_last() =~= digits.take(i - from));
        assert(numeral_value(digits.take(i + 1 - from)) == value * 10 + d);
        proof {
            lemma_value_of_prefix(digits, i + 1 - from);
        }
        let scaled: Option<usize> = value.checked_mul(10);
        if scaled.is_none() {
            return None;
        }
        let next: Option<usize> = scaled.unwrap().checked_add(d);
        if next.is_none() {
            return None;
        }
        value = next.unwrap();
        i += 1;
    }
    assert(digits.take(n - from) =~= digits);
    Some(value)
}

/// What is written is a numeral, and it stands for the number.
pub proof fn decimal_is_numeral(n: nat)
    ensures
        is_numeral(decimal(n)),
        numeral_value(decimal(n)) == n,
    decreases n,
{
    if n < 10 {
        assert(decimal(n).drop_last() =~= Seq::<char>::empty());
        assert(decimal(n).last() == digit(n));
        assert(numeral_value(Seq::<char>::empty()) == 0);
    } else {
        decimal_is_numeral(n / 10);
        let shorter = decimal(n / 10);
        assert(decimal(n).drop_last() =~= shorter);
        assert forall|i: int| 0 <= i < decimal(n).len() implies is_digit(#[trigger] decimal(n)[i]) by {
            if i < shorter.len() {
                assert(decimal(n)[i] == shorter[i]);
            }
        }
    }
}

/// Reading gives back what was written: the numeral of a number that fits in a `usize` is read as
/// that number.
pub proof fn parse_reads_decimal(n: nat)
    requires
        n <= usize::MAX,
    ensures
        parsed(decimal(n)) == Some(n),
{
    decimal_is_numeral(n);
    assert(is_digit(decimal(n)[0]));
    assert(without_sign(decimal(n)) == decimal(n));
}

/// Two numbers with the same numeral are equal.
pub proof fn decimal_is_injective(m: nat, n: nat)
    requires
        decimal(m) == decimal(n),
    ensures
        m == n,
{
    decimal_is_numeral(m);
    decimal_is_numeral(n);
}

/// A further digit is written behind the others.
pub proof fn decimal_grows_by_a_digit(n: nat, d: nat)
    requires
        d < 10,
    ensures
        n > 0 ==> decimal(n * 10 + d) == decimal(n).push((48 + d) as char),
        decimal(d) == seq![(48 + d) as char],
{
    if n > 0 {
        assert((n * 10 + d) / 10 == n);
        assert((n * 10 + d) % 10 == d);
    }
}

/// What holds anything but digits, a plus sign at its beginning aside, is no number; neither is a
/// text without digits.
pub proof fn only_digits_are_a_number(s: Seq<char>, i: int)
    requires
        s.len() == 0 || s == seq!['+'] || 0 <= i < s.len() && !('0' <= s[i] && s[i] <= '9') && !(i
            == 0 && s[0] == '+'),
    ensures
        parsed(s) is None,
{
    if 0 < s.len() && s[0] == '+' {
        if 0 < i < s.len() {
            assert(s.drop_first()[i - 1] == s[i]);
        }
    }
}

proof fn lemma_leading_zero(s: Seq<char>)
    ensures
        numeral_value(seq!['0'] + s) == numeral_value(s),
    decreases s.len(),
{
    let longer = seq!['0'] + s;
    if s.len() == 0 {
        assert(longer.drop_last() =~= s);
        assert(longer.last() == '0');
    } else {
        assert(longer.drop_last() =~= seq!['0'] + s.drop_last());
        assert(longer.last() == s.last());
        lemma_leading_zero(s.drop_last());
    }
}

/// A plus sign and a zero before a numeral do not change the number that is read. A number that is
/// too large is not read.
pub proof fn signs_and_zeros_change_nothing(n: nat)
    ensures
        n <= usize::MAX ==> parsed(seq!['+'] + decimal(n)) == Some(n),
        n <= usize::MAX ==> parsed(seq!['0'] + decimal(n)) == Some(n),
        n > usize::MAX ==> parsed(decimal(n)) is None,
{
    decimal_is_numeral(n);
    let text = decimal(n);
    assert(is_digit(text[0]));
    assert((seq!['+'] + text).drop_first() =~= text);
    let longer = seq!['0'] + text;
    lemma_leading_zero(text);
    assert(longer[0] == '0');
    assert forall|i: int| 0 <= i < longer.len() implies is_digit(#[trigger] longer[i]) by {
        if i > 0 {
            assert(longer[i] == text[i - 1]);
        }
    }
}

} // verus!
