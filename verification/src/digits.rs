//! Reading numbers in decimal.
use vstd::prelude::*;

use crate::text;

verus! {

/// Whether `c` is a decimal digit.
pub open spec fn is_digit(c: char) -> bool {
    48 <= c as u32 <= 57
}

/// Whether every character of `s` is a decimal digit.
pub open spec fn all_digits(s: Seq<char>) -> bool {
    forall|i: int| 0 <= i < s.len() ==> is_digit(#[trigger] s[i])
}

/// The number that the digits `s` stand for.
pub open spec fn value(s: Seq<char>) -> nat
    decreases s.len(),
{
    if s.len() == 0 {
        0
    } else {
        (value(s.drop_last()) * 10 + (s.last() as u32 - 48)) as nat
    }
}

/// The number that `s` stands for: digits, with a plus sign before them or not.
pub open spec fn parsed(s: Seq<char>) -> Option<nat> {
    let d = if s.len() > 0 && s[0] == '+' {
        s.skip(1)
    } else {
        s
    };
    if d.len() > 0 && all_digits(d) {
        Some(value(d))
    } else {
        None
    }
}

proof fn lemma_value_grows(s: Seq<char>, k: int)
    requires
        0 <= k <= s.len(),
        all_digits(s),
    ensures
        value(s.take(k)) <= value(s),
    decreases s.len(),
{
    if k == s.len() {
        assert(s.take(k) =~= s);
    } else {
        assert(s.drop_last().take(k) =~= s.take(k));
        assert(all_digits(s.drop_last()));
        lemma_value_grows(s.drop_last(), k);
        assert(is_digit(s[s.len() - 1]));
    }
}

/// Reads a number, as long as it can be held.
pub fn parse_usize(s: &str) -> (r: Option<usize>)
    ensures
        match parsed(s@) {
            Some(n) => r == (if n <= usize::MAX {
                Some(n as usize)
            } else {
                None
            }),
            None => r is None,
        },
{
    let v = text::chars_of(s);
    let start: usize = if v.len() > 0 && v[0] == '+' {
        1
    } else {
        0
    };
    let ghost d = s@.skip(start as int);
    proof {
        assert(s@.skip(0) =~= s@);
    }
    if start == v.len() {
        return None;
    }
    let mut n: usize = 0;
    let mut i: usize = start;
    proof {
        assert(d.take(0) =~= Seq::empty());
    }
    while i < v.len()
        invariant
            v@ == s@,
            start <= i <= v@.len(),
            start < v@.len(),
            d == s@.skip(start as int),
            parsed(s@) == (if d.len() > 0 && all_digits(d) {
                Some(value(d))
            } else {
                None::<nat>
            }),
            all_digits(d.take(i - start)),
            n == value(d.take(i - start)),
        decreases v@.len() - i,
    {
        let c: char = v[i];
        let ghost k = i - start;
        proof {
            assert(d[k] == c);
            assert(d.take(k + 1).drop_last() =~= d.take(k));
            assert(d.take(k + 1).last() == c);
        }
        let code: u32 = c as u32;
        if code < 48 || code > 57 {
            proof {
                assert(!is_digit(d[k]));
            }
            return None;
        }
        let digit: usize = (code - 48) as usize;
        proof {
            assert forall|j: int| 0 <= j < d.take(k + 1).len() implies is_digit(
                #[trigger] d.take(k + 1)[j],
            ) by {
                if j < k {
                    assert(d.take(k)[j] == d.take(k + 1)[j]);
                }
            }
            assert(value(d.take(k + 1)) == n * 10 + digit);
            if all_digits(d) {
                lemma_value_grows(d, k + 1);
            }
        }
        match n.checked_mul(10) {
            Some(tens) => match tens.checked_add(digit) {
                Some(sum) => {
                    n = sum;
                },
                None => {
                    return None;
                },
            },
            None => {
                return None;
            },
        }
        i += 1;
    }
    proof {
        assert(d.take(d.len() as int) =~= d);
    }
    Some(n)
}

/// A number in decimal consists of digits, and reads back as the number.
pub proof fn lemma_decimal_reads_back(n: nat)
    ensures
        text::decimal_view(n).len() > 0,
        all_digits(text::decimal_view(n)),
        value(text::decimal_view(n)) == n,
        parsed(text::decimal_view(n)) == Some(n),
    decreases n,
{
    let s = text::decimal_view(n);
    if n < 10 {
        assert(s.drop_last() =~= Seq::empty());
        assert(value(s.drop_last()) == 0);
        assert(s.last() as u32 == 48 + n);
    } else {
        lemma_decimal_reads_back(n / 10);
        let t = text::decimal_view(n / 10);
        assert(s.drop_last() =~= t);
        assert(s.last() as u32 == 48 + n % 10);
        assert forall|i: int| 0 <= i < s.len() implies is_digit(#[trigger] s[i]) by {
            if i < t.len() {
                assert(s[i] == t[i]);
            }
        }
    }
    assert(is_digit(s[0]));
}

/// Different numbers have different decimals.
pub proof fn lemma_decimals_differ(a: nat, b: nat)
    requires
        text::decimal_view(a) == text::decimal_view(b),
    ensures
        a == b,
{
    lemma_decimal_reads_back(a);
    lemma_decimal_reads_back(b);
}

proof fn lemma_digit(c: char)
    ensures
        c as u32 as int == c as int,
        is_digit(c) <==> '0' <= c <= '9',
{
}

/// Digits stand for their number, with or without a plus sign and whatever zeros stand before
/// them, and nothing else stands for a number.
pub proof fn law_digits_stand_for_their_number(s: Seq<char>)
    ensures
        s.len() > 0 && all_digits(s) ==> parsed(s) == Some(value(s)) && parsed(seq!['+'] + s)
            == Some(value(s)) && value(s) == text::number(s) && value(seq!['0'] + s) == value(s),
        parsed(s) is Some ==> s.len() > 0 && (s[0] == '+' || '0' <= s[0] <= '9') && forall|i: int|
            1 <= i < s.len() ==> '0' <= #[trigger] s[i] <= '9',
        parsed(seq!['+']) is None,
        parsed(Seq::empty()) is None,
{
    let plus = seq!['+'] + s;
    assert(plus.skip(1) =~= s);
    if s.len() > 0 && all_digits(s) {
        assert(is_digit(s[0]));
        lemma_value_is_number(s);
    }
    if parsed(s) is Some {
        if s[0] == '+' {
            let d = s.skip(1);
            assert forall|i: int| 1 <= i < s.len() implies '0' <= #[trigger] s[i] <= '9' by {
                assert(is_digit(d[i - 1]));
                lemma_digit(s[i]);
            }
        } else {
            assert(is_digit(s[0]));
            lemma_digit(s[0]);
            assert forall|i: int| 1 <= i < s.len() implies '0' <= #[trigger] s[i] <= '9' by {
                assert(is_digit(s[i]));
                lemma_digit(s[i]);
            }
        }
    }
}

proof fn lemma_value_is_number(s: Seq<char>)
    requires
        all_digits(s),
    ensures
        value(s) == text::number(s),
        value(seq!['0'] + s) == value(s),
    decreases s.len(),
{
    let z = seq!['0'] + s;
    if s.len() > 0 {
        let t = s.drop_last();
        assert forall|i: int| 0 <= i < t.len() implies is_digit(#[trigger] t[i]) by {
            assert(is_digit(s[i]));
        }
        lemma_value_is_number(t);
        assert(z.drop_last() =~= seq!['0'] + t);
        assert(is_digit(s[s.len() - 1]));
        lemma_digit(s.last());
        assert(z.last() == s.last());
    } else {
        assert(z.drop_last() =~= Seq::empty());
        assert(value(z.drop_last()) == 0);
    }
}

} // verus!
