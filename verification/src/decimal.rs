//! Decimal notation of natural numbers, written and read back.

use vstd::prelude::*;
use crate::text::push_char;

verus! {

/// The character that stands for the digit `d`, for `0 <= d <= 9`.
pub open spec fn digit(d: int) -> char {
    if d == 0 {
        '0'
    } else if d == 1 {
        '1'
    } else if d == 2 {
        '2'
    } else if d == 3 {
        '3'
    } else if d == 4 {
        '4'
    } else if d == 5 {
        '5'
    } else if d == 6 {
        '6'
    } else if d == 7 {
        '7'
    } else if d == 8 {
        '8'
    } else {
        '9'
    }
}

/// Whether `c` is one of the ten decimal digits.
pub open spec fn is_digit(c: char) -> bool {
    exists|d: int| 0 <= d <= 9 && c == #[trigger] digit(d)
}

/// The value of the digit `c`; meaningful where `is_digit(c)`.
pub open spec fn digit_value(c: char) -> int {
    choose|d: int| 0 <= d <= 9 && c == #[trigger] digit(d)
}

/// The decimal notation of `n`: most significant digit first, no sign, and
/// no leading zero but for `0` itself.
pub open spec fn decimal(n: nat) -> Seq<char>
    decreases n,
{
    if n < 10 {
        seq![digit(n as int)]
    } else {
        decimal(n / 10).push(digit((n % 10) as int))
    }
}

/// A digit stands for one value only.
pub proof fn lemma_digit_value(d: int)
    requires
        0 <= d <= 9,
    ensures
        is_digit(digit(d)),
        digit_value(digit(d)) == d,
{
    let c = digit(d);
    let e = digit_value(c);
    assert(0 <= e <= 9 && c == digit(e));
}

/// A decimal notation is never empty, holds digits only and starts with `0`
/// only when it is `0`.
pub proof fn lemma_decimal_shape(n: nat)
    ensures
        decimal(n).len() >= 1,
        n >= 10 ==> decimal(n).len() >= 2,
        forall|i: int| 0 <= i < decimal(n).len() ==> is_digit(#[trigger] decimal(n)[i]),
        decimal(n)[0] == '0' <==> n == 0,
    decreases n,
{
    if n < 10 {
        lemma_digit_value(n as int);
    } else {
        lemma_decimal_shape(n / 10);
        lemma_digit_value((n % 10) as int);
        let head = decimal(n / 10);
        assert forall|i: int| 0 <= i < decimal(n).len() implies is_digit(
            #[trigger] decimal(n)[i],
        ) by {
            if i < head.len() {
                assert(decimal(n)[i] == head[i]);
            }
        }
        assert(decimal(n)[0] == head[0]);
    }
}

/// Two numbers with the same decimal notation are the same number.
pub proof fn lemma_decimal_injective(a: nat, b: nat)
    requires
        decimal(a) == decimal(b),
    ensures
        a == b,
    decreases a,
{
    lemma_decimal_shape(a);
    lemma_decimal_shape(b);
    if a < 10 && b < 10 {
        lemma_digit_value(a as int);
        lemma_digit_value(b as int);
        assert(decimal(a)[0] == digit(a as int));
        assert(decimal(b)[0] == digit(b as int));
    } else if a < 10 || b < 10 {
        assert(decimal(a).len() != decimal(b).len());
    } else {
        let da = decimal(a / 10);
        let db = decimal(b / 10);
        assert(decimal(a).drop_last() == da);
        assert(decimal(b).drop_last() == db);
        assert(decimal(a).last() == digit((a % 10) as int));
        assert(decimal(b).last() == digit((b % 10) as int));
        lemma_digit_value((a % 10) as int);
        lemma_digit_value((b % 10) as int);
        lemma_decimal_injective(a / 10, b / 10);
    }
}

/// The character of the digit `d`.
pub(crate) fn digit_char(d: u8) -> (c: char)
    requires
        d <= 9,
    ensures
        c == digit(d as int),
{
    if d == 0 {
        '0'
    } else if d == 1 {
        '1'
    } else if d == 2 {
        '2'
    } else if d == 3 {
        '3'
    } else if d == 4 {
        '4'
    } else if d == 5 {
        '5'
    } else if d == 6 {
        '6'
    } else if d == 7 {
        '7'
    } else if d == 8 {
        '8'
    } else {
        '9'
    }
}

/// The value of `c` if it is a decimal digit.
pub(crate) fn digit_of(c: char) -> (d: Option<u8>)
    ensures
        match d {
            Some(v) => v <= 9 && c == digit(v as int),
            None => !is_digit(c),
        },
{
    if c == '0' {
        Some(0)
    } else if c == '1' {
        Some(1)
    } else if c == '2' {
        Some(2)
    } else if c == '3' {
        Some(3)
    } else if c == '4' {
        Some(4)
    } else if c == '5' {
        Some(5)
    } else if c == '6' {
        Some(6)
    } else if c == '7' {
        Some(7)
    } else if c == '8' {
        Some(8)
    } else if c == '9' {
        Some(9)
    } else {
        None
    }
}

/// Appends the decimal notation of `n` to `out`.
pub(crate) fn push_decimal(out: &mut String, n: usize)
    ensures
        final(out)@ == old(out)@ + decimal(n as nat),
    decreases n,
{
    if n >= 10 {
        push_decimal(out, n / 10);
    }
    let d: usize = n % 10;
    push_char(out, digit_char(d as u8));
}

/// Whether `s` is the decimal notation of a number: digits only, at least
/// one, and no zero in front of another digit.
pub open spec fn is_decimal(s: Seq<char>) -> bool {
    &&& s.len() >= 1
    &&& forall|i: int| 0 <= i < s.len() ==> is_digit(#[trigger] s[i])
    &&& s[0] == '0' ==> s.len() == 1
}

/// The number that the digits `s` stand for, the first digit counting most.
pub open spec fn number(s: Seq<char>) -> nat
    decreases s.len(),
{
    if s.len() == 0 {
        0
    } else {
        number(s.drop_last()) * 10 + digit_value(s.last()) as nat
    }
}

/// Reading a decimal notation and writing the number down again gives the
/// same notation.
pub proof fn lemma_number_decimal(s: Seq<char>)
    requires
        is_decimal(s),
    ensures
        decimal(number(s)) == s,
    decreases s.len(),
{
    let c = s.last();
    assert(is_digit(c));
    let d = digit_value(c);
    assert(0 <= d <= 9 && c == digit(d));
    let front = s.drop_last();
    if front.len() == 0 {
        assert(number(front) == 0);
        assert(decimal(number(s)) =~= s);
    } else {
        assert(front[0] == s[0]);
        assert forall|i: int| 0 <= i < front.len() implies is_digit(#[trigger] front[i]) by {
            assert(front[i] == s[i]);
        }
        lemma_number_decimal(front);
        lemma_decimal_shape(number(front));
        let n = number(s);
        assert(n == number(front) * 10 + d);
        assert(n / 10 == number(front) && n % 10 == d);
        assert(decimal(n) =~= s);
    }
}

/// Writing a number down and reading it gives the number.
pub proof fn lemma_decimal_number(n: nat)
    ensures
        is_decimal(decimal(n)),
        number(decimal(n)) == n,
{
    lemma_decimal_shape(n);
    lemma_number_decimal(decimal(n));
    lemma_decimal_injective(number(decimal(n)), n);
}

/// The number that `text[from..to]` is the decimal notation of, if it is one
/// and the number is not beyond `usize::MAX`.
pub(crate) fn parse_decimal(text: &Vec<char>, from: usize, to: usize) -> (r: Option<usize>)
    requires
        from <= to <= text.len(),
    ensures
        match r {
            Some(n) => is_decimal(text@.subrange(from as int, to as int)) && n == number(
                text@.subrange(from as int, to as int),
            ),
            None => !is_decimal(text@.subrange(from as int, to as int)) || number(
                text@.subrange(from as int, to as int),
            ) > usize::MAX,
        },
{
    let ghost s = text@.subrange(from as int, to as int);
    if from == to {
        return None;
    }
    if text[from] == '0' && to - from > 1 {
        assert(s[0] == '0');
        return None;
    }
    let mut value: usize = 0;
    let mut i: usize = from;
    proof {
        assert(s.take(0) =~= Seq::<char>::empty());
    }
    while i < to
        invariant
            from <= i <= to <= text.len(),
            s == text@.subrange(from as int, to as int),
            forall|j: int| 0 <= j < i - from ==> is_digit(#[trigger] s[j]),
            value == number(s.take(i - from)),
        decreases to - i,
    {
        let ghost upto = s.take(i - from + 1);
        proof {
            assert(upto.drop_last() =~= s.take(i - from));
            assert(upto.last() == s[i - from]);
            assert(s[i - from] == text@[i as int]);
        }
        match digit_of(text[i]) {
            None => {
                return None;
            },
            Some(d) => {
                proof {
                    lemma_digit_value(d as int);
                    assert(number(upto) == value * 10 + d);
                }
                if value > (usize::MAX - d as usize) / 10 {
                    proof {
                        assert(number(upto) > usize::MAX);
                        if is_decimal(s) {
                            lemma_number_grows(s, i - from + 1);
                        }
                    }
                    return None;
                }
                value = value * 10 + d as usize;
            },
        }
        i += 1;
    }
    proof {
        assert(s.take(to - from) =~= s);
    }
    Some(value)
}

/// More digits behind never make the number smaller.
pub proof fn lemma_number_grows(s: Seq<char>, k: int)
    requires
        0 <= k <= s.len(),
    ensures
        number(s.take(k)) <= number(s),
    decreases s.len(),
{
    if k == s.len() {
        assert(s.take(k) =~= s);
    } else {
        lemma_number_grows(s.drop_last(), k);
        assert(s.drop_last().take(k) =~= s.take(k));
        assert(number(s) >= number(s.drop_last())) by (nonlinear_arith)
            requires
                number(s) == number(s.drop_last()) * 10 + digit_value(s.last()) as nat,
        ;
    }
}

} // verus!
